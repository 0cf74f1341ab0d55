//! The skills an agent session can be asked to run, and what to say to it.
//!
//! A skill is a packaged workflow: a folder with a `SKILL.md` in it, invoked by
//! typing its name with a slash in front. That is useless to somebody looking
//! at a row of panels who knows what they want done and not what it is called.
//! So the skills that are installed are read and shown with the description
//! their own author wrote, and the chosen one is sent to whichever session is
//! listening.
//!
//! Nothing is run here. A skill is instructions for an agent, and the agent is
//! in a terminal of its own. This asks.

use vstd::prelude::*;
use vstd::string::StringExecFns;
use crate::order::{in_order, ranks, sorted, stable_sort, text_below, text_less};
use crate::text::{
    chars_of, find_char, first_char, lines, lines_of, opt_view, same, slice_string, string_of,
    texts, trim, trim_of, trim_str, trimmed, trimmed_of,
};

verus! {

/// One installed skill.
#[derive(Debug, PartialEq, Eq)]
pub struct Skill {
    /// The name it is invoked by, which is the folder name unless the file says
    /// otherwise.
    pub name: String,
    /// The author's own one-line description. Shown in the menu, because a list
    /// of slugs is not a menu.
    pub description: String,
    /// "yours" for one installed for every project, or the project's own name.
    /// Worth showing: a skill that only exists here behaves differently from
    /// one that follows you around.
    pub scope: String,
    pub path: String,
}

/// A [`Skill`], with its texts as characters.
#[verifier::ext_equal]
pub struct SkillKnown {
    pub name: Seq<char>,
    pub description: Seq<char>,
    pub scope: Seq<char>,
    pub path: Seq<char>,
}

impl View for Skill {
    type V = SkillKnown;

    open spec fn view(&self) -> SkillKnown {
        SkillKnown {
            name: self.name@,
            description: self.description@,
            scope: self.scope@,
            path: self.path@,
        }
    }
}

pub open spec fn skills(v: Seq<Skill>) -> Seq<SkillKnown> {
    v.map_values(|s: Skill| s@)
}

/// The two keys that are read.
#[derive(Debug, Clone, Copy, PartialEq, Eq, Structural)]
pub enum Key {
    Name,
    Description,
}

/// What was read so far: what each key holds, and the key whose value may still
/// go on.
#[verifier::ext_equal]
pub struct Reading {
    pub name: Option<Seq<char>>,
    pub description: Option<Seq<char>>,
    pub key: Option<Key>,
    pub value: Seq<char>,
}

pub open spec fn nothing_read() -> Reading {
    Reading { name: None, description: None, key: None, value: Seq::empty() }
}

/// The key that was open, with its value noted down.
pub open spec fn closed(r: Reading) -> Reading {
    match r.key {
        Some(Key::Name) => Reading { name: Some(r.value), key: None, value: Seq::empty(), ..r },
        Some(Key::Description) => Reading {
            description: Some(r.value),
            key: None,
            value: Seq::empty(),
            ..r
        },
        None => Reading { value: Seq::empty(), ..r },
    }
}

/// A line that belongs to the key above it.
pub open spec fn goes_on(line: Seq<char>) -> bool {
    line.len() > 0 && (line[0] == ' ' || line[0] == '\t')
}

/// The key a line starts, with its value.
pub open spec fn entry_in(line: Seq<char>) -> Option<(Key, Seq<char>)> {
    match first_char(line, ':', 0) {
        None => None,
        Some(i) => {
            let k = trimmed(line.take(i));
            let v = trimmed(line.skip(i + 1));
            if k == "name"@ {
                Some((Key::Name, v))
            } else if k == "description"@ {
                Some((Key::Description, v))
            } else {
                None
            }
        },
    }
}

/// One more line read.
///
/// A description long enough to wrap is folded onto continuation lines, which
/// are indented and belong to the key above them. Under a key that is not read,
/// they are not read either.
pub open spec fn read_line(r: Reading, line: Seq<char>) -> Reading {
    if goes_on(line) && r.key is None {
        r
    } else if goes_on(line) {
        Reading {
            value: (if r.value.len() > 0 {
                r.value + " "@
            } else {
                r.value
            }) + trimmed(line),
            ..r
        }
    } else {
        let c = closed(r);
        match entry_in(line) {
            Some(e) => Reading { key: Some(e.0), value: e.1, ..c },
            None => c,
        }
    }
}

/// The lines from `i` on, up to the one that ends the frontmatter.
pub open spec fn read_from(ls: Seq<Seq<char>>, i: int, r: Reading) -> Reading
    decreases ls.len() - i,
{
    if i >= ls.len() || trimmed(ls[i]) == "---"@ {
        r
    } else {
        read_from(ls, i + 1, read_line(r, ls[i]))
    }
}

/// A value without the quotes round it, if anything is left.
pub open spec fn tidied(s: Option<Seq<char>>) -> Option<Seq<char>> {
    match s {
        Some(t) => {
            let u = trimmed(trimmed_of(trimmed(t), seq!['"']));
            if u.len() > 0 {
                Some(u)
            } else {
                None
            }
        },
        None => None,
    }
}

/// The name and the description in the frontmatter of a file, which has to be
/// the first thing in it.
pub open spec fn frontmatter(text: Seq<char>) -> (Option<Seq<char>>, Option<Seq<char>>) {
    let ls = lines(text);
    if ls.len() == 0 || trimmed(ls[0]) != "---"@ {
        (None, None)
    } else {
        let r = closed(read_from(ls, 1, nothing_read()));
        (tidied(r.name), tidied(r.description))
    }
}

fn tidy(s: Option<String>) -> (r: Option<String>)
    ensures
        opt_view(r) == tidied(opt_view(s)),
{
    match s {
        None => None,
        Some(t) => {
            let chars = chars_of(t.as_str());
            let quotes = ['"'];
            assert(quotes@ =~= seq!['"']);
            let inner = trim(trim_of(trim(chars.as_slice()), quotes.as_slice()));
            if inner.len() == 0 {
                None
            } else {
                Some(string_of(inner))
            }
        },
    }
}

fn read_entry(line: &str) -> (r: Option<(Key, String)>)
    ensures
        match r {
            Some(e) => entry_in(line@) == Some((e.0, e.1@)),
            None => entry_in(line@) is None,
        },
{
    let chars = chars_of(line);
    match find_char(chars.as_slice(), ':', 0) {
        None => None,
        Some(i) => {
            proof {
                crate::text::lemma_first_char(chars@, ':', 0);
            }
            let k = trim_str(slice_string(chars.as_slice(), 0, i).as_str());
            let v = trim_str(slice_string(chars.as_slice(), i + 1, chars.len()).as_str());
            assert(line@.subrange(0, i as int) =~= line@.take(i as int));
            assert(line@.subrange(i + 1, line@.len() as int) =~= line@.skip(i + 1));
            if same(k.as_str(), "name") {
                Some((Key::Name, v))
            } else if same(k.as_str(), "description") {
                Some((Key::Description, v))
            } else {
                None
            }
        },
    }
}

fn continues(line: &str) -> (r: bool)
    ensures
        r == goes_on(line@),
{
    let chars = chars_of(line);
    chars.len() > 0 && (chars[0] == ' ' || chars[0] == '\t')
}

/// Read the frontmatter of one `SKILL.md`.
///
/// Deliberately not a YAML parser. The frontmatter of a skill is two or three
/// flat keys. Anything that cannot be understood falls back to the folder name,
/// so a malformed file is a skill with a poor description rather than a skill
/// that vanishes.
pub fn parse_frontmatter(text: &str) -> (r: (Option<String>, Option<String>))
    ensures
        (opt_view(r.0), opt_view(r.1)) == frontmatter(text@),
{
    let chars = chars_of(text);
    let ls = lines_of(chars.as_slice());
    let ghost all = lines(text@);
    assert(all == texts(ls@));
    assert(all.len() == ls@.len());
    if ls.len() == 0 {
        return (None, None);
    }
    assert(all[0] == ls@[0]@);
    if !same(trim_str(ls[0].as_str()).as_str(), "---") {
        return (None, None);
    }
    let mut name: Option<String> = None;
    let mut description: Option<String> = None;
    let mut key: Option<Key> = None;
    let mut value = String::new();
    assert(value@ =~= Seq::<char>::empty());
    let mut i: usize = 1;
    let ghost whole = read_from(all, 1, nothing_read());
    while i < ls.len() && !same(trim_str(ls[i].as_str()).as_str(), "---")
        invariant
            1 <= i <= ls@.len(),
            all == texts(ls@),
            whole == read_from(
                all,
                i as int,
                (Reading {
                    name: opt_view(name),
                    description: opt_view(description),
                    key,
                    value: value@,
                }),
            ),
        decreases ls@.len() - i,
    {
        assert(all[i as int] == ls@[i as int]@);
        let ghost before = Reading {
            name: opt_view(name),
            description: opt_view(description),
            key,
            value: value@,
        };
        let line = ls[i].as_str();
        if continues(line) {
            if key.is_some() {
                if !value.as_str().is_empty() {
                    value.append(" ");
                }
                value.append(trim_str(line).as_str());
            }
        } else {
            match key {
                Some(Key::Name) => {
                    name = Some(value);
                },
                Some(Key::Description) => {
                    description = Some(value);
                },
                None => {},
            }
            value = String::new();
            assert(value@ =~= Seq::<char>::empty());
            key = None;
            if let Some((k, v)) = read_entry(line) {
                key = Some(k);
                value = v;
            }
        }
        assert(read_line(before, all[i as int]) == (Reading {
            name: opt_view(name),
            description: opt_view(description),
            key,
            value: value@,
        }));
        i += 1;
    }
    proof {
        if i < ls@.len() {
            assert(all[i as int] == ls@[i as int]@);
        }
    }
    match key {
        Some(Key::Name) => {
            name = Some(value);
        },
        Some(Key::Description) => {
            description = Some(value);
        },
        None => {},
    }
    (tidy(name), tidy(description))
}

/// How much of a skill's file is read. A skill is a long document and the
/// frontmatter is the first dozen lines of it.
pub const HEAD: usize = 4000;

pub open spec fn head_of(text: Seq<char>) -> Seq<char> {
    if text.len() <= HEAD {
        text
    } else {
        text.take(HEAD as int)
    }
}

/// The skill in a folder, from the text of its file.
pub fn skill_from(folder: &str, text: &str, scope: &str, file: &str) -> (r: Skill)
    ensures
        r@ == (SkillKnown {
            name: match frontmatter(head_of(text@)).0 {
                Some(n) => n,
                None => folder@,
            },
            description: match frontmatter(head_of(text@)).1 {
                Some(d) => d,
                None => Seq::empty(),
            },
            scope: scope@,
            path: file@,
        }),
{
    let chars = chars_of(text);
    let head = if chars.len() <= HEAD {
        text.to_owned()
    } else {
        slice_string(chars.as_slice(), 0, HEAD)
    };
    assert(head@ =~= head_of(text@));
    let (name, description) = parse_frontmatter(head.as_str());
    let empty = String::new();
    assert(empty@ =~= Seq::<char>::empty());
    Skill {
        name: match name {
            Some(n) => n,
            None => folder.to_owned(),
        },
        description: match description {
            Some(d) => d,
            None => empty,
        },
        scope: scope.to_owned(),
        path: file.to_owned(),
    }
}

pub open spec fn has_skill(s: Seq<SkillKnown>, name: Seq<char>) -> bool {
    exists|i: int| 0 <= i < s.len() && (#[trigger] s[i]).name == name
}

/// The skills that no other list has one of the same name for.
pub open spec fn not_replaced(yours: Seq<SkillKnown>, here: Seq<SkillKnown>) -> Seq<SkillKnown>
    decreases yours.len(),
{
    if yours.len() == 0 {
        yours
    } else {
        let d = not_replaced(yours.drop_last(), here);
        if has_skill(here, yours.last().name) {
            d
        } else {
            d.push(yours.last())
        }
    }
}

pub open spec fn skill_below(a: SkillKnown, b: SkillKnown) -> bool {
    text_below(a.name, b.name)
}

/// Every skill that can be asked for: yours, then those of the project, each in
/// the order of the names.
pub open spec fn on_offer(yours: Seq<SkillKnown>, here: Seq<SkillKnown>) -> Seq<SkillKnown> {
    let lt = |a: SkillKnown, b: SkillKnown| skill_below(a, b);
    sorted(not_replaced(yours, here), lt) + sorted(here, lt)
}

fn skill_less(a: &Skill, b: &Skill) -> (r: bool)
    ensures
        r == skill_below(a@, b@),
{
    text_less(a.name.as_str(), b.name.as_str())
}

fn is_here(here: &Vec<Skill>, name: &str) -> (r: bool)
    ensures
        r == has_skill(skills(here@), name@),
{
    let ghost s = skills(here@);
    let mut i: usize = 0;
    while i < here.len()
        invariant
            i <= here@.len(),
            s == skills(here@),
            forall|k: int| 0 <= k < i ==> (#[trigger] s[k]).name != name@,
        decreases here@.len() - i,
    {
        assert(s[i as int] == here@[i as int]@);
        if same(here[i].name.as_str(), name) {
            return true;
        }
        i += 1;
    }
    false
}

/// Skills in the order of their names.
fn by_name(list: Vec<Skill>) -> (r: Vec<Skill>)
    ensures
        skills(r@) == sorted(
            skills(list@),
            |a: SkillKnown, b: SkillKnown| skill_below(a, b),
        ),
{
    let ghost unsorted = list@;
    let ghost lt = |a: Skill, b: Skill| skill_below(a@, b@);
    let r = stable_sort(list, skill_less, Ghost(lt));
    proof {
        crate::order::lemma_sorted_view(
            unsorted,
            lt,
            |s: Skill| s@,
            |a: SkillKnown, b: SkillKnown| skill_below(a, b),
        );
    }
    r
}

/// Every skill installed, yours first, then those of the project.
///
/// A project can override a skill of the same name, so the project's copy wins
/// and yours is dropped. Showing both would offer a choice that does not exist:
/// typing the name gets the project's either way.
pub fn installed(yours: Vec<Skill>, here: Vec<Skill>) -> (r: Vec<Skill>)
    ensures
        skills(r@) == on_offer(skills(yours@), skills(here@)),
{
    let ghost all = skills(yours@);
    let ghost theirs = skills(here@);
    let mut rest = yours;
    let mut out: Vec<Skill> = Vec::new();
    let ghost mut done: int = 0;
    assert(all.take(0) =~= Seq::empty());
    assert(skills(out@) =~= Seq::empty());
    assert(all.skip(0) =~= all);
    while rest.len() > 0
        invariant
            0 <= done <= all.len(),
            skills(rest@) == all.skip(done),
            done + rest@.len() == all.len(),
            theirs == skills(here@),
            skills(out@) == not_replaced(all.take(done), theirs),
        decreases rest@.len(),
    {
        let ghost queue = rest@;
        let s = rest.remove(0);
        proof {
            assert(skills(queue)[0] == s@);
            assert(skills(rest@) =~= all.skip(done + 1)) by {
                assert forall|k: int| 0 <= k < rest@.len() implies rest@[k] == queue[k + 1] by {}
                assert forall|k: int| 0 <= k < rest@.len() implies (#[trigger] skills(rest@)[k])
                    == all.skip(done + 1)[k] by {
                    assert(skills(queue)[k + 1] == all.skip(done)[k + 1]);
                }
            }
            assert(all.take(done + 1).drop_last() =~= all.take(done));
            assert(all.take(done + 1).last() == all.skip(done)[0]);
        }
        if !is_here(&here, s.name.as_str()) {
            let ghost before = skills(out@);
            let ghost sv = s@;
            out.push(s);
            assert(skills(out@) =~= before.push(sv));
        }
        proof {
            done = done + 1;
        }
    }
    assert(all.take(all.len() as int) =~= all);
    let mut r = by_name(out);
    let mut last = by_name(here);
    let ghost first = skills(r@);
    let ghost second = skills(last@);
    r.append(&mut last);
    assert(skills(r@) =~= first + second);
    r
}

/// What to say to a session to get a skill run.
pub open spec fn asking_for(skill: Seq<char>, context: Option<Seq<char>>) -> Seq<char> {
    "Rick asked for this from the Break/Points window: run the "@ + skill + " skill now (/"@ + skill
        + ")."@ + (match context {
        Some(c) => if trimmed(c).len() > 0 {
            "\n\nWhat he added: "@ + trimmed(c)
        } else {
            Seq::empty()
        },
        None => Seq::empty(),
    })
}

/// What to say to a session to get a skill run.
///
/// Written as a sentence rather than as a bare slash command, because it
/// arrives as a notification rather than as something typed at a prompt. The
/// name is still in there verbatim so there is no ambiguity about which one is
/// meant.
pub fn invocation(skill: &str, context: Option<&str>) -> (r: String)
    ensures
        r@ == asking_for(
            skill@,
            match context {
                Some(c) => Some(c@),
                None => None,
            },
        ),
{
    let mut out = "Rick asked for this from the Break/Points window: run the ".to_owned();
    out.append(skill);
    out.append(" skill now (/");
    out.append(skill);
    out.append(").");
    assert(out@ + Seq::<char>::empty() =~= out@);
    if let Some(c) = context {
        let said = trim_str(c);
        if !said.as_str().is_empty() {
            let mut p = "\n\nWhat he added: ".to_owned();
            p.append(said.as_str());
            out.append(p.as_str());
        }
    }
    out
}

proof fn lemma_not_replaced(yours: Seq<SkillKnown>, here: Seq<SkillKnown>, s: SkillKnown)
    ensures
        not_replaced(yours, here).contains(s) <==> yours.contains(s) && !has_skill(here, s.name),
    decreases yours.len(),
{
    if yours.len() > 0 {
        let d = yours.drop_last();
        lemma_not_replaced(d, here, s);
        assert(yours =~= d.push(yours.last()));
        let k = not_replaced(d, here);
        if d.contains(s) {
            let i = choose|i: int| 0 <= i < d.len() && d[i] == s;
            assert(yours[i] == s);
        }
        if yours.last() == s {
            assert(yours[yours.len() - 1] == s);
        }
        if !has_skill(here, yours.last().name) {
            if k.contains(s) {
                let i = choose|i: int| 0 <= i < k.len() && k[i] == s;
                assert(k.push(yours.last())[i] == s);
            }
            if yours.last() == s {
                assert(k.push(yours.last())[k.len() as int] == s);
            }
        }
    }
}

/// The project's copy of a name replaces yours and every other skill is kept.
/// Yours come first, in the order of the names, then those of the project in
/// theirs.
pub proof fn the_projects_skill_wins(yours: Seq<SkillKnown>, here: Seq<SkillKnown>, s: SkillKnown)
    ensures
        on_offer(yours, here).contains(s) <==> here.contains(s) || (yours.contains(s)
            && !has_skill(here, s.name)),
        ({
            let n = on_offer(yours, here).len() - here.len();
            let lt = |a: SkillKnown, b: SkillKnown| skill_below(a, b);
            &&& n == not_replaced(yours, here).len()
            &&& in_order(on_offer(yours, here).take(n), lt)
            &&& in_order(on_offer(yours, here).skip(n), lt)
            &&& on_offer(yours, here).skip(n).contains(s) <==> here.contains(s)
        }),
{
    let lt = |a: SkillKnown, b: SkillKnown| skill_below(a, b);
    assert(ranks(lt)) by {
        assert forall|a: SkillKnown| !#[trigger] lt(a, a) by {
            crate::order::lemma_text_below(a.name, a.name, a.name);
        }
        assert forall|a: SkillKnown, b: SkillKnown| #[trigger] lt(a, b) implies !lt(b, a) by {
            crate::order::lemma_text_below(a.name, b.name, b.name);
        }
        assert forall|a: SkillKnown, b: SkillKnown, c: SkillKnown|
            !(#[trigger] lt(a, b)) && !(#[trigger] lt(b, c)) implies !lt(a, c) by {
            crate::order::lemma_text_below(a.name, b.name, c.name);
        }
    }
    let k = not_replaced(yours, here);
    lemma_not_replaced(yours, here, s);
    let a = sorted(k, lt);
    let b = sorted(here, lt);
    crate::order::lemma_sorted_keeps(k, lt, s);
    crate::order::lemma_sorted_keeps(here, lt, s);
    crate::order::sorting_is_ordered_and_complete(k, lt);
    crate::order::sorting_is_ordered_and_complete(here, lt);
    assert((a + b).take(a.len() as int) =~= a);
    assert((a + b).skip(a.len() as int) =~= b);
    assert((a + b).contains(s) <==> a.contains(s) || b.contains(s)) by {
        if a.contains(s) {
            let i = choose|i: int| 0 <= i < a.len() && a[i] == s;
            assert((a + b)[i] == s);
        }
        if b.contains(s) {
            let i = choose|i: int| 0 <= i < b.len() && b[i] == s;
            assert((a + b)[a.len() + i] == s);
        }
    }
}

/// A line that is not indented is an entry by what stands before its first
/// colon, and what stands after it is the value.
pub proof fn an_entry_is_a_key_and_a_value(k: Seq<char>, v: Seq<char>)
    requires
        !k.contains(':'),
    ensures
        trimmed(k) == "name"@ ==> entry_in(k + seq![':'] + v) == Some((Key::Name, trimmed(v))),
        trimmed(k) == "description"@ ==> entry_in(k + seq![':'] + v) == Some(
            (Key::Description, trimmed(v)),
        ),
        trimmed(k) != "name"@ && trimmed(k) != "description"@ ==> entry_in(k + seq![':'] + v)
            is None,
        entry_in(k) is None,
{
    reveal_strlit("name");
    reveal_strlit("description");
    assert("name"@.len() == 4 && "description"@.len() == 11);
    let line = k + seq![':'] + v;
    crate::text::lemma_first_char(line, ':', 0);
    crate::text::lemma_first_char(k, ':', 0);
    assert(line[k.len() as int] == ':');
    assert forall|i: int| 0 <= i < k.len() implies line[i] != ':' by {
        assert(k.contains(k[i]));
    }
    assert forall|i: int| 0 <= i < k.len() implies k[i] != ':' by {
        assert(k.contains(k[i]));
    }
    assert(line.take(k.len() as int) =~= k);
    assert(line.skip((k.len() + 1) as int) =~= v);
}

/// How a block is read on: an indented line is added to the entry above it with
/// a space between, and any other line ends that entry.
pub proof fn an_indented_line_goes_on(r: Reading, line: Seq<char>)
    requires
        line.len() > 0,
    ensures
        (line[0] == ' ' || line[0] == '\t') && r.key is Some && r.value.len() > 0 ==> read_line(
            r,
            line,
        ) == (Reading { value: r.value + " "@ + trimmed(line), ..r }),
        (line[0] == ' ' || line[0] == '\t') && r.key is Some && r.value.len() == 0 ==> read_line(
            r,
            line,
        ).value == trimmed(line),
        (line[0] == ' ' || line[0] == '\t') && r.key is None ==> read_line(r, line) == r,
        line[0] != ' ' && line[0] != '\t' && r.key == Some(Key::Name) ==> read_line(r, line).name
            == Some(r.value),
        line[0] != ' ' && line[0] != '\t' && r.key == Some(Key::Description) ==> read_line(
            r,
            line,
        ).description == Some(r.value),
        line[0] != ' ' && line[0] != '\t' ==> (entry_in(line) matches Some(e) ==> read_line(
            r,
            line,
        ).key == Some(e.0) && read_line(r, line).value == e.1),
{
}

/// A file that does not begin with a block says neither name nor description,
/// and one whose block ends at once says none either.
pub proof fn a_file_without_a_block_says_nothing(text: Seq<char>)
    ensures
        lines(text).len() == 0 ==> frontmatter(text) == (None::<Seq<char>>, None::<Seq<char>>),
        lines(text).len() > 0 && trimmed(lines(text)[0]) != "---"@ ==> frontmatter(text) == (
            None::<Seq<char>>,
            None::<Seq<char>>,
        ),
        lines(text).len() == 2 && trimmed(lines(text)[0]) == "---"@ && entry_in(lines(text)[1])
            is Some && trimmed(lines(text)[1]) != "---"@ && !goes_on(lines(text)[1]) ==> {
            let e = entry_in(lines(text)[1])->0;
            &&& e.0 == Key::Name ==> frontmatter(text).0 == tidied(Some(e.1))
            &&& e.0 == Key::Description ==> frontmatter(text).1 == tidied(Some(e.1))
        },
{
    reveal_with_fuel(read_from, 3);
}

/// Asking for a skill names it, and adds what was written where something was.
pub proof fn asking_names_the_skill(skill: Seq<char>, context: Seq<char>)
    ensures
        trimmed(context).len() > 0 ==> asking_for(skill, Some(context)) == asking_for(skill, None)
            + ("\n\nWhat he added: "@ + trimmed(context)),
        trimmed(context).len() == 0 ==> asking_for(skill, Some(context)) == asking_for(
            skill,
            None,
        ),
        asking_for(skill, None) == "Rick asked for this from the Break/Points window: run the "@
            + skill + " skill now (/"@ + skill + ")."@,
{
    assert(asking_for(skill, None)
        =~= "Rick asked for this from the Break/Points window: run the "@ + skill
        + " skill now (/"@ + skill + ")."@);
}

/// Of two skills of one name the project's is on offer and yours is not; one of
/// yours whose name the project does not use is.
pub proof fn a_name_is_offered_once(
    yours: Seq<SkillKnown>,
    here: Seq<SkillKnown>,
    s: SkillKnown,
)
    ensures
        (exists|i: int| 0 <= i < here.len() && (#[trigger] here[i]).name == s.name)
            && !here.contains(s) ==> !on_offer(yours, here).contains(s),
        (forall|i: int| 0 <= i < here.len() ==> (#[trigger] here[i]).name != s.name)
            && yours.contains(s) ==> on_offer(yours, here).contains(s),
        here.contains(s) ==> on_offer(yours, here).contains(s),
{
    the_projects_skill_wins(yours, here, s);
}

} // verus!
