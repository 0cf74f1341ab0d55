//! `breakpoints.md`: the normalised, human-readable, Git-friendly project
//! config. It lives in the project root, commits with the repo, and once it
//! exists it is the source of truth. Detection results become a suggestion.
//!
//! Two rules govern writing it. Prose is preserved, because people document
//! their reasoning around the table. And a file that will not parse is kept
//! exactly as it is, because losing someone's config to a parser bug is worse
//! than showing a warning chip.

use vstd::prelude::*;
use vstd::slice::slice_subrange;
use vstd::string::StringExecFns;
use crate::model::{
    fresh_viewport, viewports, whole_string, whole_text, Panelled, Viewport,
};
use crate::scanner::units::{in_measure, number, read_number};
use crate::text::{
    begins, check_at, chars_of, find_char, finishes, first_char, is_space, join, joined,
    lemma_first_char, lines, lines_of, lower_str, lowered, opt_view, same, space, split,
    split_char, string_of, strip_front, texts, trim, trim_of, trim_str, trimmed, trimmed_of,
};

pub mod laws;

verus! {

pub const MARKDOWN_NAME: &'static str = "breakpoints.md";

pub const JSON_NAME: &'static str = ".breakpoints.json";

pub const BEGIN: &'static str = "<!-- breakpoints:config";

pub const END: &'static str = "-->";

#[derive(Debug)]
pub struct ProjectFile {
    pub viewports: Vec<Viewport>,
    pub url: Option<String>,
    pub zoom_to_fit: Option<bool>,
    pub scroll_sync: Option<bool>,
    pub source: Option<String>,
    pub source_hash: Option<String>,
    pub generated: Option<String>,
}

/// A [`ProjectFile`], with its texts as characters.
#[verifier::ext_equal]
pub struct FileFound {
    pub viewports: Seq<Panelled>,
    pub url: Option<Seq<char>>,
    pub zoom_to_fit: Option<bool>,
    pub scroll_sync: Option<bool>,
    pub source: Option<Seq<char>>,
    pub source_hash: Option<Seq<char>>,
    pub generated: Option<Seq<char>>,
}

impl View for ProjectFile {
    type V = FileFound;

    open spec fn view(&self) -> FileFound {
        FileFound {
            viewports: viewports(self.viewports@),
            url: opt_view(self.url),
            zoom_to_fit: self.zoom_to_fit,
            scroll_sync: self.scroll_sync,
            source: opt_view(self.source),
            source_hash: opt_view(self.source_hash),
            generated: opt_view(self.generated),
        }
    }
}

pub open spec fn empty_file() -> FileFound {
    FileFound {
        viewports: Seq::empty(),
        url: None,
        zoom_to_fit: None,
        scroll_sync: None,
        source: None,
        source_hash: None,
        generated: None,
    }
}

impl Default for ProjectFile {
    fn default() -> (r: Self)
        ensures
            r@ == empty_file(),
    {
        let r = ProjectFile {
            viewports: Vec::new(),
            url: None,
            zoom_to_fit: None,
            scroll_sync: None,
            source: None,
            source_hash: None,
            generated: None,
        };
        assert(r@.viewports =~= Seq::empty());
        r
    }
}

/// A line without the whitespace in front of it.
pub open spec fn left_trimmed(s: Seq<char>) -> Seq<char> {
    strip_front(s, |c: char| is_space(c))
}

/// A line that starts with a bar, as every line of a table does.
pub open spec fn is_barred(line: Seq<char>) -> bool {
    begins(left_trimmed(line), seq!['|'])
}

/// The cells of a table's line.
pub open spec fn cells_in(line: Seq<char>) -> Seq<Seq<char>> {
    split(trimmed_of(trimmed(line), seq!['|']), '|').map_values(|c: Seq<char>| trimmed(c))
}

/// Whether one of the cells is `name`, whatever the case.
pub open spec fn has_cell(cells: Seq<Seq<char>>, name: Seq<char>) -> bool {
    exists|i: int| 0 <= i < cells.len() && lowered(#[trigger] cells[i]) == name
}

/// A table's header: one that names Name, Width and Height.
pub open spec fn is_header(line: Seq<char>) -> bool {
    &&& is_barred(line)
    &&& has_cell(cells_in(line), "name"@)
    &&& has_cell(cells_in(line), "width"@)
    &&& has_cell(cells_in(line), "height"@)
}

pub open spec fn is_separator(line: Seq<char>) -> bool {
    is_barred(line) && line.contains('-')
}

/// Whether a table starts on a line. The separator row has to be next, or this
/// is prose that happens to use pipes.
pub open spec fn table_at(ls: Seq<Seq<char>>, i: int) -> bool {
    0 <= i && i + 1 < ls.len() && is_header(ls[i]) && is_separator(ls[i + 1])
}

/// The first line, from `i` on, that a table starts on.
pub open spec fn table_from(ls: Seq<Seq<char>>, i: int) -> Option<int>
    decreases ls.len() - i,
{
    if i >= ls.len() {
        None
    } else if table_at(ls, i) {
        Some(i)
    } else {
        table_from(ls, i + 1)
    }
}

/// The last line of the run of barred ones that `i` is in.
pub open spec fn bars_end(ls: Seq<Seq<char>>, i: int) -> int
    decreases ls.len() - i,
{
    if i + 1 < ls.len() && is_barred(ls[i + 1]) {
        bars_end(ls, i + 1)
    } else {
        i
    }
}

/// The first and the last line of the first table whose header names Name,
/// Width and Height.
pub open spec fn table_range(ls: Seq<Seq<char>>) -> Option<(int, int)> {
    match table_from(ls, 0) {
        Some(i) => Some((i, bars_end(ls, i + 1))),
        None => None,
    }
}

pub open spec fn opens_block(line: Seq<char>) -> bool {
    begins(left_trimmed(line), BEGIN@)
}

pub open spec fn block_from(ls: Seq<Seq<char>>, i: int) -> Option<int>
    decreases ls.len() - i,
{
    if i >= ls.len() {
        None
    } else if opens_block(ls[i]) {
        Some(i)
    } else {
        block_from(ls, i + 1)
    }
}

pub open spec fn closes_block(line: Seq<char>) -> bool {
    trimmed(line) == END@
}

pub open spec fn block_end(ls: Seq<Seq<char>>, i: int) -> Option<int>
    decreases ls.len() - i,
{
    if i >= ls.len() {
        None
    } else if closes_block(ls[i]) {
        Some(i)
    } else {
        block_end(ls, i + 1)
    }
}

/// The first and the last line of the config block.
pub open spec fn block_range(ls: Seq<Seq<char>>) -> Option<(int, int)> {
    match block_from(ls, 0) {
        Some(s) => match block_end(ls, s) {
            Some(e) => Some((s, e)),
            None => None,
        },
        None => None,
    }
}

/// A number without the units written behind it.
pub open spec fn without_px(s: Seq<char>) -> Seq<char>
    decreases s.len(),
{
    if s.len() >= 2 && s[s.len() - 1] == 'x' && s[s.len() - 2] == 'p' {
        without_px(s.take(s.len() - 2))
    } else {
        s
    }
}

/// The size a cell holds, in millionths of a pixel.
pub open spec fn size_in(cell: Seq<char>) -> Option<i64> {
    match number(trimmed(without_px(trimmed(cell)))) {
        Some(v) => Some(in_measure(v)),
        None => None,
    }
}

/// The viewport a row of the table describes, if it describes one.
pub open spec fn row_of(line: Seq<char>) -> Option<Panelled> {
    let cells = cells_in(line);
    if cells.len() < 3 || size_in(cells[1]) is None || size_in(cells[2]) is None {
        None
    } else {
        let vp = fresh_viewport(
            cells[0],
            size_in(cells[1])->Some_0,
            size_in(cells[2])->Some_0,
            if cells.len() > 3 {
                cells[3]
            } else {
                "custom"@
            },
        );
        Some(
            Panelled {
                reference: if cells.len() > 4 && cells[4].len() > 0 && cells[4] != "-"@ {
                    Some(cells[4])
                } else {
                    None
                },
                ..vp
            },
        )
    }
}

/// The viewports that lines describe, in order.
pub open spec fn rows_of(ls: Seq<Seq<char>>) -> Seq<Panelled>
    decreases ls.len(),
{
    if ls.len() == 0 {
        Seq::empty()
    } else {
        let d = rows_of(ls.drop_last());
        match row_of(ls.last()) {
            Some(v) => d.push(v),
            None => d,
        }
    }
}

/// The viewports of the table there is.
pub open spec fn table_viewports(ls: Seq<Seq<char>>) -> Seq<Panelled> {
    match table_range(ls) {
        Some((s, e)) => rows_of(ls.subrange(s + 2, e + 1)),
        None => Seq::empty(),
    }
}

/// What one line of the config block sets.
pub open spec fn with_setting(f: FileFound, line: Seq<char>) -> FileFound {
    match first_char(line, ':', 0) {
        None => f,
        Some(k) => {
            let key = trimmed(line.take(k));
            let value = trimmed(line.skip(k + 1));
            if key == "url"@ {
                FileFound { url: Some(value), ..f }
            } else if key == "zoomToFit"@ {
                FileFound { zoom_to_fit: Some(value == "true"@), ..f }
            } else if key == "scrollSync"@ {
                FileFound { scroll_sync: Some(value == "true"@), ..f }
            } else if key == "source"@ {
                FileFound { source: Some(value), ..f }
            } else if key == "sourceHash"@ {
                FileFound { source_hash: Some(value), ..f }
            } else if key == "generated"@ {
                FileFound { generated: Some(value), ..f }
            } else {
                f
            }
        },
    }
}

pub open spec fn with_settings(f: FileFound, ls: Seq<Seq<char>>) -> FileFound
    decreases ls.len(),
{
    if ls.len() == 0 {
        f
    } else {
        with_setting(with_settings(f, ls.drop_last()), ls.last())
    }
}

/// What a file with these lines says, when it has a table of viewports.
pub open spec fn parsed(ls: Seq<Seq<char>>) -> Option<FileFound> {
    let vps = table_viewports(ls);
    if vps.len() == 0 {
        None
    } else {
        let f = FileFound { viewports: vps, ..empty_file() };
        Some(
            match block_range(ls) {
                Some((s, e)) => with_settings(f, ls.subrange(s + 1, e)),
                None => f,
            },
        )
    }
}

fn left_trim<'a>(s: &'a [char]) -> (r: &'a [char])
    ensures
        r@ == left_trimmed(s@),
{
    let mut i: usize = 0;
    let f = Ghost(|c: char| is_space(c));
    assert(s@.skip(0) =~= s@);
    while i < s.len() && space(s[i])
        invariant
            i <= s@.len(),
            strip_front(s@.skip(i as int), |c: char| is_space(c)) == left_trimmed(s@),
        decreases s.len() - i,
    {
        assert(s@.skip(i as int).drop_first() =~= s@.skip(i + 1));
        assert(s@.skip(i as int)[0] == s@[i as int]);
        i += 1;
    }
    assert(i < s@.len() ==> s@.skip(i as int)[0] == s@[i as int]);
    let r = slice_subrange(s, i, s.len());
    assert(r@ =~= s@.skip(i as int));
    r
}

fn barred(line: &str) -> (r: bool)
    ensures
        r == is_barred(line@),
{
    let chars = chars_of(line);
    let t = left_trim(chars.as_slice());
    let r = t.len() > 0 && t[0] == '|';
    proof {
        if r {
            assert(t@.subrange(0, 1) =~= seq!['|']);
        } else if is_barred(line@) {
            assert(t@.subrange(0, 1)[0] == '|');
        }
    }
    r
}

pub fn row_cells(line: &str) -> (r: Vec<String>)
    ensures
        texts(r@) == cells_in(line@),
        r@.len() > 0,
{
    let chars = chars_of(line);
    let bar: Vec<char> = vec!['|'];
    assert(bar@ =~= seq!['|']);
    let inner = trim_of(trim(chars.as_slice()), bar.as_slice());
    let pieces = split_char(inner, '|');
    let ghost all = split(inner@, '|');
    let ghost want = cells_in(line@);
    let mut out: Vec<String> = Vec::new();
    let mut i: usize = 0;
    assert(texts(out@) =~= want.take(0));
    while i < pieces.len()
        invariant
            i <= pieces@.len(),
            all == texts(pieces@),
            want == all.map_values(|c: Seq<char>| trimmed(c)),
            texts(out@) == want.take(i as int),
        decreases pieces@.len() - i,
    {
        let ghost before = texts(out@);
        let c = trim_str(pieces[i].as_str());
        out.push(c);
        assert(texts(out@) =~= before.push(c@));
        assert(all[i as int] == pieces@[i as int]@);
        assert(want.take(i + 1) =~= want.take(i as int).push(want[i as int]));
        i += 1;
    }
    assert(want.take(want.len() as int) =~= want);
    assert(texts(out@).len() == out@.len());
    out
}

fn named(cells: &Vec<String>, name: &str) -> (r: bool)
    ensures
        r == has_cell(texts(cells@), name@),
{
    let ghost all = texts(cells@);
    let mut i: usize = 0;
    while i < cells.len()
        invariant
            i <= cells@.len(),
            all == texts(cells@),
            forall|k: int| 0 <= k < i ==> lowered(#[trigger] all[k]) != name@,
        decreases cells@.len() - i,
    {
        assert(all[i as int] == cells@[i as int]@);
        if same(lower_str(cells[i].as_str()).as_str(), name) {
            return true;
        }
        i += 1;
    }
    false
}

fn header(line: &str) -> (r: bool)
    ensures
        r == is_header(line@),
{
    if !barred(line) {
        return false;
    }
    let cells = row_cells(line);
    named(&cells, "name") && named(&cells, "width") && named(&cells, "height")
}

fn separator(line: &str) -> (r: bool)
    ensures
        r == is_separator(line@),
{
    if !barred(line) {
        return false;
    }
    let chars = chars_of(line);
    proof {
        lemma_first_char(line@, '-', 0);
    }
    find_char(chars.as_slice(), '-', 0).is_some()
}

/// Where the table is, among lines.
pub fn find_table(ls: &Vec<String>) -> (r: Option<(usize, usize)>)
    ensures
        match r {
            Some((s, e)) => table_range(texts(ls@)) == Some((s as int, e as int)) && s + 1 <= e
                < ls@.len(),
            None => table_range(texts(ls@)) is None,
        },
{
    let ghost all = texts(ls@);
    let mut i: usize = 0;
    while i < ls.len()
        invariant
            i <= ls@.len(),
            all == texts(ls@),
            table_from(all, 0) == table_from(all, i as int),
        decreases ls@.len() - i,
    {
        assert(all[i as int] == ls@[i as int]@);
        if i < ls.len() - 1 && header(ls[i].as_str()) {
            assert(all[i + 1] == ls@[i + 1]@);
            if separator(ls[i + 1].as_str()) {
                let mut end: usize = i + 1;
                while end < ls.len() - 1 && barred(ls[end + 1].as_str())
                    invariant
                        i + 1 <= end < ls@.len(),
                        all == texts(ls@),
                        bars_end(all, i + 1) == bars_end(all, end as int),
                    decreases ls@.len() - end,
                {
                    assert(all[end + 1] == ls@[end + 1]@);
                    end += 1;
                }
                assert(end + 1 < ls@.len() ==> all[end + 1] == ls@[end + 1]@);
                return Some((i, end));
            }
        }
        i += 1;
    }
    None
}

fn opens(line: &str) -> (r: bool)
    ensures
        r == opens_block(line@),
{
    let chars = chars_of(line);
    let begin = chars_of(BEGIN);
    check_at(left_trim(chars.as_slice()), begin.as_slice(), 0)
}

fn find_begin(ls: &Vec<String>) -> (r: Option<usize>)
    ensures
        match r {
            Some(s) => block_from(texts(ls@), 0) == Some(s as int) && s < ls@.len(),
            None => block_from(texts(ls@), 0) is None,
        },
{
    let ghost all = texts(ls@);
    let mut i: usize = 0;
    while i < ls.len()
        invariant
            i <= ls@.len(),
            all == texts(ls@),
            block_from(all, 0) == block_from(all, i as int),
        decreases ls@.len() - i,
    {
        assert(all[i as int] == ls@[i as int]@);
        if opens(ls[i].as_str()) {
            return Some(i);
        }
        i += 1;
    }
    None
}

/// Where the config block is, among lines.
pub fn find_block(ls: &Vec<String>) -> (r: Option<(usize, usize)>)
    ensures
        match r {
            Some((s, e)) => block_range(texts(ls@)) == Some((s as int, e as int)) && s <= e
                < ls@.len(),
            None => block_range(texts(ls@)) is None,
        },
{
    let ghost all = texts(ls@);
    match find_begin(ls) {
        None => None,
        Some(s) => {
            let mut i: usize = s;
            while i < ls.len()
                invariant
                    s <= i <= ls@.len(),
                    all == texts(ls@),
                    block_end(all, s as int) == block_end(all, i as int),
                    block_from(all, 0) == Some(s as int),
                decreases ls@.len() - i,
            {
                assert(all[i as int] == ls@[i as int]@);
                if same(trim_str(ls[i].as_str()).as_str(), END) {
                    return Some((s, i));
                }
                i += 1;
            }
            None
        },
    }
}

fn cut_px<'a>(s: &'a [char]) -> (r: &'a [char])
    ensures
        r@ == without_px(s@),
{
    let mut end: usize = s.len();
    assert(s@.take(end as int) =~= s@);
    while end >= 2 && s[end - 1] == 'x' && s[end - 2] == 'p'
        invariant
            end <= s@.len(),
            s@.len() == s.len(),
            without_px(s@.take(end as int)) == without_px(s@),
        decreases end,
    {
        assert(s@.take(end as int).take(end - 2) =~= s@.take(end - 2));
        end -= 2;
    }
    let r = slice_subrange(s, 0, end);
    assert(r@ =~= s@.take(end as int));
    r
}

pub fn parse_number(cell: &str) -> (r: Option<i64>)
    ensures
        r == size_in(cell@),
{
    let chars = chars_of(cell);
    read_number(trim(cut_px(trim(chars.as_slice()))))
}

fn read_row(line: &str) -> (r: Option<Viewport>)
    ensures
        row_of(line@) == match r {
            Some(v) => Some(v@),
            None => None,
        },
{
    let cells = row_cells(line);
    let ghost all = texts(cells@);
    assert(all.len() == cells@.len());
    if cells.len() < 3 {
        return None;
    }
    assert(all[0] == cells@[0]@ && all[1] == cells@[1]@ && all[2] == cells@[2]@);
    match (parse_number(cells[1].as_str()), parse_number(cells[2].as_str())) {
        (Some(width), Some(height)) => {
            let source = if cells.len() > 3 {
                assert(all[3] == cells@[3]@);
                cells[3].as_str()
            } else {
                "custom"
            };
            let mut viewport = Viewport::new(cells[0].as_str(), width, height, source);
            if cells.len() > 4 {
                assert(all[4] == cells@[4]@);
                if !cells[4].as_str().is_empty() && !same(cells[4].as_str(), "-") {
                    viewport.reference = Some(cells[4].as_str().to_owned());
                }
            }
            assert(viewport@ =~= row_of(line@)->Some_0);
            Some(viewport)
        },
        _ => None,
    }
}

fn read_rows(ls: &Vec<String>, from: usize, to: usize) -> (r: Vec<Viewport>)
    requires
        from <= to <= ls@.len(),
    ensures
        viewports(r@) == rows_of(texts(ls@).subrange(from as int, to as int)),
{
    let ghost all = texts(ls@);
    let mut out: Vec<Viewport> = Vec::new();
    let mut i: usize = from;
    assert(all.subrange(from as int, from as int) =~= Seq::empty());
    assert(viewports(out@) =~= Seq::empty());
    while i < to
        invariant
            from <= i <= to <= ls@.len(),
            all == texts(ls@),
            viewports(out@) == rows_of(all.subrange(from as int, i as int)),
        decreases to - i,
    {
        let ghost before = viewports(out@);
        proof {
            let p = all.subrange(from as int, i + 1);
            assert(p.drop_last() =~= all.subrange(from as int, i as int));
            assert(p.last() == ls@[i as int]@);
        }
        if let Some(v) = read_row(ls[i].as_str()) {
            out.push(v);
            assert(viewports(out@) =~= before.push(v@));
        }
        i += 1;
    }
    out
}

fn read_setting(file: &mut ProjectFile, line: &str)
    ensures
        final(file)@ == with_setting(old(file)@, line@),
{
    let chars = chars_of(line);
    proof {
        lemma_first_char(line@, ':', 0);
    }
    if let Some(k) = find_char(chars.as_slice(), ':', 0) {
        let ghost start = file@;
        let key = string_of(trim(slice_subrange(chars.as_slice(), 0, k)));
        let value = string_of(trim(slice_subrange(chars.as_slice(), k + 1, chars.len())));
        assert(chars@.subrange(0, k as int) =~= line@.take(k as int));
        assert(chars@.subrange(k + 1, chars@.len() as int) =~= line@.skip(k + 1));
        if same(key.as_str(), "url") {
            file.url = Some(value);
        } else if same(key.as_str(), "zoomToFit") {
            file.zoom_to_fit = Some(same(value.as_str(), "true"));
        } else if same(key.as_str(), "scrollSync") {
            file.scroll_sync = Some(same(value.as_str(), "true"));
        } else if same(key.as_str(), "source") {
            file.source = Some(value);
        } else if same(key.as_str(), "sourceHash") {
            file.source_hash = Some(value);
        } else if same(key.as_str(), "generated") {
            file.generated = Some(value);
        }
    }
}

fn read_settings(file: &mut ProjectFile, ls: &Vec<String>, from: usize, to: usize)
    requires
        from <= to <= ls@.len(),
    ensures
        final(file)@ == with_settings(
            old(file)@,
            texts(ls@).subrange(from as int, to as int),
        ),
{
    let ghost start = file@;
    let ghost all = texts(ls@);
    let mut i: usize = from;
    assert(all.subrange(from as int, from as int) =~= Seq::empty());
    while i < to
        invariant
            from <= i <= to <= ls@.len(),
            all == texts(ls@),
            file@ == with_settings(start, all.subrange(from as int, i as int)),
        decreases to - i,
    {
        proof {
            let p = all.subrange(from as int, i + 1);
            assert(p.drop_last() =~= all.subrange(from as int, i as int));
            assert(p.last() == ls@[i as int]@);
        }
        read_setting(file, ls[i].as_str());
        i += 1;
    }
}

/// What is said of a file without a table to read.
pub const NO_TABLE: &'static str = "no table with Name, Width and Height columns";

pub fn parse_markdown(text: &str) -> (r: Result<ProjectFile, String>)
    ensures
        match r {
            Ok(f) => parsed(lines(text@)) == Some(f@),
            Err(e) => parsed(lines(text@)) is None && e@ == NO_TABLE@,
        },
{
    let chars = chars_of(text);
    let ls = lines_of(chars.as_slice());
    let ghost all = texts(ls@);
    let mut file = ProjectFile::default();
    let count: usize = ls.len();
    if let Some((s, e)) = find_table(&ls) {
        assert(s + 2 <= e + 1 <= count);
        file.viewports = read_rows(&ls, s + 2, e + 1);
    } else {
        assert(viewports(file.viewports@) =~= table_viewports(all));
    }
    assert(file@ =~= FileFound { viewports: table_viewports(all), ..empty_file() });
    assert(file@.viewports.len() == file.viewports@.len());
    if file.viewports.len() == 0 {
        return Err(NO_TABLE.to_owned());
    }
    if let Some((s, e)) = find_block(&ls) {
        proof {
            laws::lemma_block_range(all);
        }
        read_settings(&mut file, &ls, s + 1, e);
    }
    Ok(file)
}

/// A table's line.
pub open spec fn cells_text(cells: Seq<Seq<char>>) -> Seq<char>
    decreases cells.len(),
{
    if cells.len() == 0 {
        seq!['|']
    } else {
        cells_text(cells.drop_last()) + " "@ + cells.last() + " |"@
    }
}

/// The cells of a viewport's row.
pub open spec fn row_cells_of(v: Panelled, with_references: bool) -> Seq<Seq<char>> {
    let four = seq![v.name, whole_text(v.width as int), whole_text(v.height as int), v.source];
    if with_references {
        four.push(
            match v.reference {
                Some(r) => r,
                None => "-"@,
            },
        )
    } else {
        four
    }
}

pub open spec fn any_reference(vps: Seq<Panelled>) -> bool {
    exists|i: int| 0 <= i < vps.len() && (#[trigger] vps[i]).reference is Some
}

pub open spec fn table_head(with_references: bool) -> Seq<Seq<char>> {
    if with_references {
        seq![
            "| Name | Width | Height | Source | Reference |"@,
            "|------|------:|-------:|--------|-----------|"@,
        ]
    } else {
        seq!["| Name | Width | Height | Source |"@, "|------|------:|-------:|--------|"@]
    }
}

/// Every line of a text, each with its newline.
pub open spec fn flat(ls: Seq<Seq<char>>) -> Seq<char>
    decreases ls.len(),
{
    if ls.len() == 0 {
        Seq::empty()
    } else {
        flat(ls.drop_last()) + ls.last() + seq!['\n']
    }
}

/// The lines of a table.
pub open spec fn table_lines(vps: Seq<Panelled>) -> Seq<Seq<char>> {
    let w = any_reference(vps);
    table_head(w) + vps.map_values(|v: Panelled| cells_text(row_cells_of(v, w)))
}

pub open spec fn table_text(vps: Seq<Panelled>) -> Seq<char> {
    flat(table_lines(vps))
}

pub open spec fn yes_no(b: bool) -> Seq<char> {
    if b {
        "true"@
    } else {
        "false"@
    }
}

pub open spec fn setting(key: Seq<char>, value: Option<Seq<char>>) -> Seq<Seq<char>> {
    match value {
        Some(v) => seq![key + v],
        None => Seq::empty(),
    }
}

pub open spec fn or_true(b: Option<bool>) -> bool {
    match b {
        Some(x) => x,
        None => true,
    }
}

pub open spec fn or_today(g: Option<Seq<char>>, today: Seq<char>) -> Seq<char> {
    match g {
        Some(x) => x,
        None => today,
    }
}

/// The lines between the first and the last of a config block.
pub open spec fn setting_lines(f: FileFound, today: Seq<char>) -> Seq<Seq<char>> {
    setting("url: "@, f.url) + seq!["zoomToFit: "@ + yes_no(or_true(f.zoom_to_fit))] + seq![
        "scrollSync: "@ + yes_no(or_true(f.scroll_sync)),
    ] + setting("source: "@, f.source) + setting("sourceHash: "@, f.source_hash) + seq![
        "generated: "@ + or_today(f.generated, today),
    ]
}

/// The config block, which ends without a newline.
pub open spec fn block_text(f: FileFound, today: Seq<char>) -> Seq<char> {
    flat(seq![BEGIN@] + setting_lines(f, today)) + END@
}

/// The lines with the config block put in, in place of the one there is or
/// after them all.
pub open spec fn with_block(ls: Seq<Seq<char>>, block: Seq<Seq<char>>) -> Seq<Seq<char>> {
    match block_range(ls) {
        Some((s, e)) => ls.take(s) + block + ls.skip(e + 1),
        None => ls + seq![Seq::<char>::empty()] + block,
    }
}

/// The lines with the table put in: in place of the one there is, before the
/// config block, or after them all.
pub open spec fn with_table(ls: Seq<Seq<char>>, table: Seq<Seq<char>>) -> Seq<Seq<char>> {
    match table_range(ls) {
        Some((s, e)) => ls.take(s) + table + ls.skip(e + 1),
        None => {
            let at = match block_from(ls, 0) {
                Some(i) => i,
                None => ls.len() as int,
            };
            ls.take(at) + table + seq![Seq::<char>::empty()] + ls.skip(at)
        },
    }
}

pub open spec fn newline() -> Seq<char> {
    seq!['\n']
}

/// The lines of a file with its block and table rewritten, before they are
/// joined.
pub open spec fn rewritten(existing: Seq<char>, f: FileFound, today: Seq<char>) -> Seq<Seq<char>> {
    let blocked = with_block(lines(existing), lines(block_text(f, today)));
    with_table(lines(joined(blocked, newline())), lines(table_text(f.viewports)))
}

/// The text of a project file: a fresh one, or an existing one with its table
/// and its config block rewritten and every other line left alone.
pub open spec fn rendered(existing: Option<Seq<char>>, f: FileFound, today: Seq<char>) -> Seq<char> {
    match existing {
        None => "# Breakpoints\n\n"@ + table_text(f.viewports) + newline() + block_text(f, today)
            + newline(),
        Some(e) => {
            let out = joined(rewritten(e, f, today), newline());
            if finishes(out, newline()) {
                out
            } else {
                out + newline()
            }
        },
    }
}

fn push_line(out: &mut String, line: &str)
    ensures
        final(out)@ == old(out)@ + line@ + seq!['\n'],
{
    out.append(line);
    out.push('\n');
    assert(out@ =~= old(out)@ + line@ + seq!['\n']);
}

proof fn lemma_flat_push(ls: Seq<Seq<char>>, l: Seq<char>)
    ensures
        flat(ls.push(l)) == flat(ls) + l + seq!['\n'],
{
    assert(ls.push(l).drop_last() =~= ls);
}

fn push_cell(out: &mut String, cell: &str)
    ensures
        final(out)@ == old(out)@ + " "@ + cell@ + " |"@,
{
    out.append(" ");
    out.append(cell);
    out.append(" |");
    assert(out@ =~= old(out)@ + " "@ + cell@ + " |"@);
}

fn render_row(v: &Viewport, with_references: bool) -> (r: String)
    ensures
        r@ == cells_text(row_cells_of(v@, with_references)),
{
    let ghost cells = row_cells_of(v@, with_references);
    let mut out = String::new();
    out.push('|');
    assert(out@ =~= cells_text(cells.take(0)));
    push_cell(&mut out, v.name.as_str());
    assert(cells.take(1).drop_last() =~= cells.take(0));
    assert(out@ == cells_text(cells.take(1)));
    push_cell(&mut out, whole_string(v.width).as_str());
    assert(cells.take(2).drop_last() =~= cells.take(1));
    assert(out@ == cells_text(cells.take(2)));
    push_cell(&mut out, whole_string(v.height).as_str());
    assert(cells.take(3).drop_last() =~= cells.take(2));
    assert(out@ == cells_text(cells.take(3)));
    push_cell(&mut out, v.source.as_str());
    assert(cells.take(4).drop_last() =~= cells.take(3));
    assert(out@ == cells_text(cells.take(4)));
    if with_references {
        match &v.reference {
            Some(r) => {
                push_cell(&mut out, r.as_str());
            },
            None => {
                push_cell(&mut out, "-");
            },
        }
        assert(cells.take(5).drop_last() =~= cells.take(4));
        assert(cells.take(5) =~= cells);
    } else {
        assert(cells.take(4) =~= cells);
    }
    out
}

fn has_reference(vps: &Vec<Viewport>) -> (r: bool)
    ensures
        r == any_reference(viewports(vps@)),
{
    let ghost all = viewports(vps@);
    let mut i: usize = 0;
    while i < vps.len()
        invariant
            i <= vps@.len(),
            all == viewports(vps@),
            forall|k: int| 0 <= k < i ==> (#[trigger] all[k]).reference is None,
        decreases vps@.len() - i,
    {
        assert(all[i as int] == vps@[i as int]@);
        if vps[i].reference.is_some() {
            return true;
        }
        i += 1;
    }
    false
}

fn render_table(vps: &Vec<Viewport>) -> (r: String)
    ensures
        r@ == table_text(viewports(vps@)),
{
    let w = has_reference(vps);
    let ghost all = viewports(vps@);
    let ghost want = table_lines(all);
    let mut out = String::new();
    assert(out@ =~= flat(want.take(0)));
    if w {
        push_line(&mut out, "| Name | Width | Height | Source | Reference |");
        assert(want.take(1) =~= want.take(0).push(want[0]));
        proof {
            lemma_flat_push(want.take(0), want[0]);
        }
        push_line(&mut out, "|------|------:|-------:|--------|-----------|");
        assert(want.take(2) =~= want.take(1).push(want[1]));
        proof {
            lemma_flat_push(want.take(1), want[1]);
        }
    } else {
        push_line(&mut out, "| Name | Width | Height | Source |");
        assert(want.take(1) =~= want.take(0).push(want[0]));
        proof {
            lemma_flat_push(want.take(0), want[0]);
        }
        push_line(&mut out, "|------|------:|-------:|--------|");
        assert(want.take(2) =~= want.take(1).push(want[1]));
        proof {
            lemma_flat_push(want.take(1), want[1]);
        }
    }
    let mut i: usize = 0;
    while i < vps.len()
        invariant
            i <= vps@.len(),
            all == viewports(vps@),
            w == any_reference(all),
            want == table_lines(all),
            want.len() == all.len() + 2,
            out@ == flat(want.take(i + 2)),
        decreases vps@.len() - i,
    {
        let row = render_row(&vps[i], w);
        proof {
            assert(all[i as int] == vps@[i as int]@);
            assert(want[i + 2] == row@);
            assert(want.take(i + 3) =~= want.take(i + 2).push(want[i + 2]));
            lemma_flat_push(want.take(i + 2), want[i + 2]);
        }
        push_line(&mut out, row.as_str());
        i += 1;
    }
    assert(want.take(want.len() as int) =~= want);
    out
}

fn push_setting(out: &mut String, key: &str, value: &str)
    ensures
        final(out)@ == old(out)@ + (key@ + value@) + seq!['\n'],
{
    out.append(key);
    out.append(value);
    out.push('\n');
    assert(out@ =~= old(out)@ + (key@ + value@) + seq!['\n']);
}

fn push_flag(out: &mut String, key: &str, value: Option<bool>)
    ensures
        final(out)@ == old(out)@ + (key@ + yes_no(or_true(value))) + seq!['\n'],
{
    let on = match value {
        Some(b) => b,
        None => true,
    };
    if on {
        push_setting(out, key, "true");
    } else {
        push_setting(out, key, "false");
    }
}

fn render_config_block(f: &ProjectFile, today: &str) -> (r: String)
    ensures
        r@ == block_text(f@, today@),
{
    let ghost v = f@;
    let ghost mut done = seq![BEGIN@];
    let mut out = String::new();
    push_line(&mut out, BEGIN);
    proof {
        lemma_flat_push(Seq::empty(), BEGIN@);
        assert(Seq::<Seq<char>>::empty().push(BEGIN@) =~= done);
        assert(out@ =~= flat(done));
    }
    if let Some(url) = &f.url {
        push_setting(&mut out, "url: ", url.as_str());
        proof {
            lemma_flat_push(done, "url: "@ + url@);
        }
    }
    proof {
        let next = done + setting("url: "@, v.url);
        if v.url is Some {
            assert(next =~= done.push("url: "@ + v.url->Some_0));
        } else {
            assert(next =~= done);
        }
        done = next;
        assert(out@ == flat(done));
    }
    push_flag(&mut out, "zoomToFit: ", f.zoom_to_fit);
    proof {
        let l = "zoomToFit: "@ + yes_no(or_true(v.zoom_to_fit));
        lemma_flat_push(done, l);
        assert(done + seq![l] =~= done.push(l));
        done = done + seq![l];
        assert(out@ == flat(done));
    }
    push_flag(&mut out, "scrollSync: ", f.scroll_sync);
    proof {
        let l = "scrollSync: "@ + yes_no(or_true(v.scroll_sync));
        lemma_flat_push(done, l);
        assert(done + seq![l] =~= done.push(l));
        done = done + seq![l];
        assert(out@ == flat(done));
    }
    if let Some(source) = &f.source {
        push_setting(&mut out, "source: ", source.as_str());
        proof {
            lemma_flat_push(done, "source: "@ + source@);
        }
    }
    proof {
        let next = done + setting("source: "@, v.source);
        if v.source is Some {
            assert(next =~= done.push("source: "@ + v.source->Some_0));
        } else {
            assert(next =~= done);
        }
        done = next;
        assert(out@ == flat(done));
    }
    if let Some(hash) = &f.source_hash {
        push_setting(&mut out, "sourceHash: ", hash.as_str());
        proof {
            lemma_flat_push(done, "sourceHash: "@ + hash@);
        }
    }
    proof {
        let next = done + setting("sourceHash: "@, v.source_hash);
        if v.source_hash is Some {
            assert(next =~= done.push("sourceHash: "@ + v.source_hash->Some_0));
        } else {
            assert(next =~= done);
        }
        done = next;
        assert(out@ == flat(done));
    }
    match &f.generated {
        Some(g) => {
            push_setting(&mut out, "generated: ", g.as_str());
        },
        None => {
            push_setting(&mut out, "generated: ", today);
        },
    }
    proof {
        let l = "generated: "@ + or_today(v.generated, today@);
        lemma_flat_push(done, l);
        assert(done + seq![l] =~= done.push(l));
        done = done + seq![l];
        assert(out@ == flat(done));
        assert(done =~= seq![BEGIN@] + setting_lines(v, today@));
    }
    out.append(END);
    out
}

fn push_lines(out: &mut Vec<String>, ls: &Vec<String>, from: usize, to: usize)
    requires
        from <= to <= ls@.len(),
    ensures
        texts(final(out)@) == texts(old(out)@) + texts(ls@).subrange(from as int, to as int),
{
    let ghost start = texts(out@);
    let ghost all = texts(ls@);
    let mut i: usize = from;
    assert(texts(out@) =~= start + all.subrange(from as int, from as int));
    while i < to
        invariant
            from <= i <= to <= ls@.len(),
            all == texts(ls@),
            texts(out@) == start + all.subrange(from as int, i as int),
        decreases to - i,
    {
        let ghost before = texts(out@);
        let l = ls[i].as_str().to_owned();
        out.push(l);
        assert(texts(out@) =~= before.push(l@));
        assert(all.subrange(from as int, i + 1) =~= all.subrange(from as int, i as int).push(
            all[i as int],
        ));
        assert(texts(out@) =~= start + all.subrange(from as int, i + 1));
        i += 1;
    }
}

fn put_block(ls: &Vec<String>, block: &Vec<String>) -> (r: Vec<String>)
    ensures
        texts(r@) == with_block(texts(ls@), texts(block@)),
{
    let ghost all = texts(ls@);
    let ghost b = texts(block@);
    let mut out: Vec<String> = Vec::new();
    assert(texts(out@) =~= Seq::empty());
    assert(all.len() == ls@.len() && b.len() == block@.len());
    let count: usize = ls.len();
    match find_block(ls) {
        Some((s, e)) => {
            assert(e < count);
            push_lines(&mut out, ls, 0, s);
            push_lines(&mut out, block, 0, block.len());
            push_lines(&mut out, ls, e + 1, ls.len());
            assert(texts(out@) =~= all.take(s as int) + b + all.skip(e + 1));
        },
        None => {
            push_lines(&mut out, ls, 0, ls.len());
            let ghost before = texts(out@);
            let blank = "".to_owned();
            proof {
                reveal_strlit("");
            }
            assert(blank@ =~= Seq::<char>::empty());
            out.push(blank);
            assert(texts(out@) =~= before.push(blank@));
            push_lines(&mut out, block, 0, block.len());
            assert(texts(out@) =~= all + seq![Seq::<char>::empty()] + b);
        },
    }
    out
}

fn put_table(ls: &Vec<String>, table: &Vec<String>) -> (r: Vec<String>)
    ensures
        texts(r@) == with_table(texts(ls@), texts(table@)),
{
    let ghost all = texts(ls@);
    let ghost t = texts(table@);
    let mut out: Vec<String> = Vec::new();
    assert(texts(out@) =~= Seq::empty());
    assert(all.len() == ls@.len() && t.len() == table@.len());
    let count: usize = ls.len();
    match find_table(ls) {
        Some((s, e)) => {
            assert(e < count);
            push_lines(&mut out, ls, 0, s);
            push_lines(&mut out, table, 0, table.len());
            push_lines(&mut out, ls, e + 1, ls.len());
            assert(texts(out@) =~= all.take(s as int) + t + all.skip(e + 1));
        },
        None => {
            let at: usize = match find_begin(ls) {
                Some(i) => i,
                None => ls.len(),
            };
            push_lines(&mut out, ls, 0, at);
            push_lines(&mut out, table, 0, table.len());
            let ghost before = texts(out@);
            let blank = "".to_owned();
            proof {
                reveal_strlit("");
            }
            assert(blank@ =~= Seq::<char>::empty());
            out.push(blank);
            assert(texts(out@) =~= before.push(blank@));
            push_lines(&mut out, ls, at, ls.len());
            assert(texts(out@) =~= all.take(at as int) + t + seq![Seq::<char>::empty()]
                + all.skip(at as int));
        },
    }
    out
}

/// Rewrite the table and the config block, leaving every other line alone.
/// `today` is the date a file is said to be generated on when it does not say.
pub fn render_markdown(existing: Option<&str>, f: &ProjectFile, today: &str) -> (r: String)
    ensures
        r@ == rendered(
            match existing {
                Some(e) => Some(e@),
                None => None,
            },
            f@,
            today@,
        ),
{
    let table = render_table(&f.viewports);
    let block = render_config_block(f, today);
    match existing {
        None => {
            let mut out = "# Breakpoints\n\n".to_owned();
            out.append(table.as_str());
            out.push('\n');
            out.append(block.as_str());
            out.push('\n');
            assert(out@ =~= "# Breakpoints\n\n"@ + table_text(f@.viewports) + newline()
                + block_text(f@, today@) + newline());
            out
        },
        Some(e) => {
            proof {
                reveal_strlit("\n");
                assert("\n"@ =~= newline());
            }
            let chars = chars_of(e);
            let ls = lines_of(chars.as_slice());
            let block_chars = chars_of(block.as_str());
            let block_ls = lines_of(block_chars.as_slice());
            // The config block first, because replacing the table shifts line
            // numbers.
            let blocked = put_block(&ls, &block_ls);
            let rebuilt = join(&blocked, "\n");
            let rebuilt_chars = chars_of(rebuilt.as_str());
            let rebuilt_ls = lines_of(rebuilt_chars.as_slice());
            let table_chars = chars_of(table.as_str());
            let table_ls = lines_of(table_chars.as_slice());
            let done = put_table(&rebuilt_ls, &table_ls);
            let mut out = join(&done, "\n");
            if !crate::text::finishes_with(out.as_str(), "\n") {
                out.push('\n');
                assert(out@ =~= joined(rewritten(e@, f@, today@), newline()) + newline());
            }
            out
        },
    }
}

/// Which project file there is to read, Markdown first.
pub fn file_to_read(has_markdown: bool, has_json: bool) -> (r: Option<&'static str>)
    ensures
        match r {
            Some(name) => name@ == if has_markdown {
                MARKDOWN_NAME@
            } else {
                JSON_NAME@
            } && (has_markdown || has_json),
            None => !has_markdown && !has_json,
        },
{
    if has_markdown {
        Some(MARKDOWN_NAME)
    } else if has_json {
        Some(JSON_NAME)
    } else {
        None
    }
}

/// Whether a project file drives a project.
pub fn is_there(has_markdown: bool, has_json: bool) -> (r: bool)
    ensures
        r == (has_markdown || has_json),
{
    has_markdown || has_json
}

} // verus!
