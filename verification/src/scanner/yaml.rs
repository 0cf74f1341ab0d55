//! Reading YAML, as far as the detectors look into it.

use vstd::prelude::*;
use crate::text::{opt_view, same};

verus! {

/// One node of a YAML document.
#[derive(Debug)]
pub enum Node {
    /// A string.
    Text(String),
    /// A sequence.
    Items(Vec<Node>),
    /// A mapping, in the order it was written.
    Members(Vec<(Node, Node)>),
    /// A number, a boolean, a null or an alias.
    Other,
}

/// The string a node is.
pub open spec fn text_of(n: Node) -> Option<Seq<char>> {
    match n {
        Node::Text(s) => Some(s@),
        _ => None,
    }
}

/// The value of the first of these members whose name is `key`.
pub open spec fn first_member(ms: Seq<(Node, Node)>, key: Seq<char>) -> Option<Node>
    decreases ms.len(),
{
    if ms.len() == 0 {
        None
    } else if text_of(ms[0].0) == Some(key) {
        Some(ms[0].1)
    } else {
        first_member(ms.drop_first(), key)
    }
}

/// What a mapping says under `key`.
pub open spec fn member_of(n: Node, key: Seq<char>) -> Option<Node> {
    match n {
        Node::Members(ms) => first_member(ms@, key),
        _ => None,
    }
}

/// The string a mapping says under `key`.
pub open spec fn member_text(n: Node, key: Seq<char>) -> Option<Seq<char>> {
    match member_of(n, key) {
        Some(v) => text_of(v),
        None => None,
    }
}

impl Node {
    pub fn text(&self) -> (r: Option<&String>)
        ensures
            match r {
                Some(s) => text_of(*self) == Some(s@),
                None => text_of(*self) is None,
            },
    {
        match self {
            Node::Text(s) => Some(s),
            _ => None,
        }
    }

    pub fn member(&self, key: &str) -> (r: Option<&Node>)
        ensures
            match r {
                Some(v) => member_of(*self, key@) == Some(*v),
                None => member_of(*self, key@) is None,
            },
    {
        match self {
            Node::Members(ms) => {
                let mut i: usize = 0;
                assert(ms@.skip(0) =~= ms@);
                while i < ms.len()
                    invariant
                        i <= ms@.len(),
                        member_of(*self, key@) == first_member(ms@, key@),
                        first_member(ms@, key@) == first_member(ms@.skip(i as int), key@),
                    decreases ms@.len() - i,
                {
                    assert(ms@.skip(i as int)[0] == ms@[i as int]);
                    assert(ms@.skip(i as int).drop_first() =~= ms@.skip(i + 1));
                    match &ms[i].0 {
                        Node::Text(s) => {
                            if same(s.as_str(), key) {
                                return Some(&ms[i].1);
                            }
                        },
                        _ => {},
                    }
                    i += 1;
                }
                None
            },
            _ => None,
        }
    }

    pub fn member_string(&self, key: &str) -> (r: Option<String>)
        ensures
            opt_view(r) == member_text(*self, key@),
    {
        match self.member(key) {
            Some(Node::Text(s)) => Some(s.as_str().to_owned()),
            _ => None,
        }
    }
}

/// What is met in reading a text, as far as it tells how deep the text nests.
/// The number is the anchor that names the node, or zero.
#[derive(Debug, Clone, Copy, PartialEq, Eq, Structural)]
pub enum Mark {
    SequenceStart(usize),
    SequenceEnd,
    MappingStart(usize),
    MappingEnd,
    Scalar(usize),
    /// The node that an anchor names, once more.
    Alias(usize),
    /// Anything else.
    Other,
}

/// How deep a text has nested so far.
#[verifier::ext_equal]
pub struct Depths {
    /// The collections that are open: the anchor of each, and the levels of the
    /// deepest node in it.
    pub open: Seq<(usize, nat)>,
    /// The levels of each node that has an anchor.
    pub named: Seq<(usize, nat)>,
    /// The most levels there were at once.
    pub most: nat,
}

/// The levels of the node that an anchor names. One that is not complete yet is
/// a leaf where it is asked for.
pub open spec fn levels_of(named: Seq<(usize, nat)>, id: usize) -> nat
    decreases named.len(),
{
    if named.len() == 0 {
        1
    } else if named.last().0 == id {
        named.last().1
    } else {
        levels_of(named.drop_last(), id)
    }
}

pub open spec fn greater(a: nat, b: nat) -> nat {
    if a > b {
        a
    } else {
        b
    }
}

/// A node of `d` levels put into the innermost collection that is open.
pub open spec fn with_node(s: Depths, d: nat) -> Depths {
    Depths {
        open: if s.open.len() == 0 {
            s.open
        } else {
            s.open.drop_last().push((s.open.last().0, greater(s.open.last().1, d)))
        },
        most: greater(s.most, s.open.len() + d),
        ..s
    }
}

pub open spec fn opened(s: Depths, id: usize) -> Depths {
    Depths { open: s.open.push((id, 0)), most: greater(s.most, s.open.len() + 1), ..s }
}

pub open spec fn closed(s: Depths) -> Depths {
    if s.open.len() == 0 {
        s
    } else {
        let d = s.open.last().1 + 1;
        with_node(
            Depths {
                open: s.open.drop_last(),
                named: if s.open.last().0 == 0 {
                    s.named
                } else {
                    s.named.push((s.open.last().0, d))
                },
                ..s
            },
            d,
        )
    }
}

/// One more thing read.
pub open spec fn after(s: Depths, m: Mark) -> Depths {
    match m {
        Mark::SequenceStart(id) => opened(s, id),
        Mark::MappingStart(id) => opened(s, id),
        Mark::SequenceEnd => closed(s),
        Mark::MappingEnd => closed(s),
        Mark::Scalar(_) => with_node(s, 1),
        Mark::Alias(id) => with_node(s, levels_of(s.named, id)),
        Mark::Other => s,
    }
}

pub open spec fn depths(ms: Seq<Mark>, n: int) -> Depths
    decreases n,
{
    if n <= 0 {
        Depths { open: Seq::empty(), named: Seq::empty(), most: 0 }
    } else {
        after(depths(ms, n - 1), ms[n - 1])
    }
}

/// How many levels a text nests, with every alias written out.
pub open spec fn most_levels(ms: Seq<Mark>) -> nat {
    depths(ms, ms.len() as int).most
}

/// How many levels are read. Reading goes one call deeper with each.
pub const DEEPEST: usize = 500;

pub const TOO_DEEP: &'static str = "it nests too deep to be read";

/// Nothing that was read has more levels than there were at once.
spec fn within(s: Depths) -> bool {
    &&& s.open.len() <= s.most
    &&& forall|i: int| 0 <= i < s.open.len() ==> i + 1 + (#[trigger] s.open[i]).1 <= s.most
    &&& forall|i: int| 0 <= i < s.named.len() ==> (#[trigger] s.named[i]).1 <= s.most
}

proof fn lemma_levels_within(s: Depths, named: Seq<(usize, nat)>, id: usize)
    requires
        forall|i: int| 0 <= i < named.len() ==> (#[trigger] named[i]).1 <= s.most,
    ensures
        levels_of(named, id) <= greater(s.most, 1),
    decreases named.len(),
{
    if named.len() > 0 {
        assert(named[named.len() - 1].1 <= s.most);
        assert forall|i: int| 0 <= i < named.drop_last().len() implies (
        #[trigger] named.drop_last()[i]).1 <= s.most by {
            assert(named[i].1 <= s.most);
        }
        lemma_levels_within(s, named.drop_last(), id);
    }
}

proof fn lemma_node_within(s: Depths, d: nat)
    requires
        within(s),
    ensures
        within(with_node(s, d)),
        s.most <= with_node(s, d).most,
{
    let r = with_node(s, d);
    assert forall|i: int| 0 <= i < r.open.len() implies i + 1 + (#[trigger] r.open[i]).1
        <= r.most by {
        assert(i + 1 + s.open[i].1 <= s.most);
    }
}

proof fn lemma_within(s: Depths, m: Mark)
    requires
        within(s),
    ensures
        within(after(s, m)),
        s.most <= after(s, m).most,
{
    match m {
        Mark::SequenceStart(id) | Mark::MappingStart(id) => {
            let r = opened(s, id);
            assert forall|i: int| 0 <= i < r.open.len() implies i + 1 + (#[trigger] r.open[i]).1
                <= r.most by {
                if i < s.open.len() {
                    assert(i + 1 + s.open[i].1 <= s.most);
                }
            }
        },
        Mark::SequenceEnd | Mark::MappingEnd => {
            if s.open.len() > 0 {
                let d = s.open.last().1 + 1;
                assert(s.open[s.open.len() - 1].1 + s.open.len() <= s.most);
                let t = Depths {
                    open: s.open.drop_last(),
                    named: if s.open.last().0 == 0 {
                        s.named
                    } else {
                        s.named.push((s.open.last().0, d))
                    },
                    ..s
                };
                assert forall|i: int| 0 <= i < t.open.len() implies i + 1 + (
                #[trigger] t.open[i]).1 <= t.most by {
                    assert(i + 1 + s.open[i].1 <= s.most);
                }
                lemma_node_within(t, d);
            }
        },
        Mark::Scalar(_) => {
            lemma_node_within(s, 1);
        },
        Mark::Alias(id) => {
            lemma_node_within(s, levels_of(s.named, id));
        },
        Mark::Other => {},
    }
}

proof fn lemma_most_rises(ms: Seq<Mark>, a: int, b: int)
    requires
        a <= b,
    ensures
        within(depths(ms, b)),
        depths(ms, a).most <= depths(ms, b).most,
    decreases b,
{
    if b > 0 {
        if a < b {
            lemma_most_rises(ms, a, b - 1);
        } else {
            lemma_most_rises(ms, b - 1, b - 1);
        }
        lemma_within(depths(ms, b - 1), ms[b - 1]);
    }
}

spec fn counted(v: Seq<(usize, usize)>) -> Seq<(usize, nat)> {
    v.map_values(|e: (usize, usize)| (e.0, e.1 as nat))
}

fn find_levels(named: &Vec<(usize, usize)>, id: usize) -> (r: usize)
    ensures
        r == levels_of(counted(named@), id),
{
    let ghost all = counted(named@);
    let mut n: usize = named.len();
    assert(all.take(n as int) =~= all);
    while n > 0
        invariant
            n <= named@.len(),
            all == counted(named@),
            levels_of(all, id) == levels_of(all.take(n as int), id),
        decreases n,
    {
        assert(all.take(n as int).last() == all[n - 1]);
        assert(all.take(n as int).drop_last() =~= all.take(n - 1));
        if named[n - 1].0 == id {
            return named[n - 1].1;
        }
        n -= 1;
    }
    1
}

fn put_node(open: &mut Vec<(usize, usize)>, d: usize)
    ensures
        counted(final(open)@) == if old(open)@.len() == 0 {
            counted(old(open)@)
        } else {
            counted(old(open)@).drop_last().push(
                (old(open)@.last().0, greater(old(open)@.last().1 as nat, d as nat)),
            )
        },
{
    let n: usize = open.len();
    if n > 0 {
        let ghost before = open@;
        let (id, inner) = open[n - 1];
        if d > inner {
            open.set(n - 1, (id, d));
        }
        assert(counted(open@) =~= counted(before).drop_last().push(
            (before.last().0, greater(before.last().1 as nat, d as nat)),
        ));
    }
}

/// Whether a text in which this is met has no more levels than are read.
pub fn is_shallow(ms: &Vec<Mark>) -> (r: bool)
    ensures
        r == (most_levels(ms@) <= DEEPEST),
{
    let mut open: Vec<(usize, usize)> = Vec::new();
    let mut named: Vec<(usize, usize)> = Vec::new();
    let mut most: usize = 0;
    let mut i: usize = 0;
    assert(counted(open@) =~= Seq::empty());
    assert(counted(named@) =~= Seq::empty());
    while i < ms.len()
        invariant
            i <= ms@.len(),
            most <= DEEPEST,
            depths(ms@, i as int) == (Depths {
                open: counted(open@),
                named: counted(named@),
                most: most as nat,
            }),
        decreases ms@.len() - i,
    {
        let ghost was = depths(ms@, i as int);
        let ghost now = depths(ms@, i + 1);
        proof {
            lemma_most_rises(ms@, i as int, i as int);
            lemma_most_rises(ms@, i + 1, ms@.len() as int);
            assert(was.open.len() == open@.len());
            assert(now == after(was, ms@[i as int]));
        }
        let mut level: usize = 0;
        match ms[i] {
            Mark::SequenceStart(id) | Mark::MappingStart(id) => {
                let ghost before = counted(open@);
                level = open.len() + 1;
                open.push((id, 0));
                assert(counted(open@) =~= before.push((id, 0)));
            },
            Mark::SequenceEnd | Mark::MappingEnd => {
                let n: usize = open.len();
                if n > 0 {
                    let ghost names = counted(named@);
                    let ghost before = counted(open@);
                    proof {
                        assert(before[n - 1] == (open@[n - 1].0, open@[n - 1].1 as nat));
                        assert(n + was.open[n - 1].1 <= was.most);
                    }
                    let (id, inner) = open[n - 1];
                    let _ = open.pop();
                    assert(counted(open@) =~= before.drop_last());
                    if id > 0 {
                        named.push((id, inner + 1));
                        assert(counted(named@) =~= names.push((id, (inner + 1) as nat)));
                    }
                    level = open.len() + inner + 1;
                    put_node(&mut open, inner + 1);
                }
            },
            Mark::Scalar(_) => {
                level = open.len() + 1;
                put_node(&mut open, 1);
            },
            Mark::Alias(id) => {
                proof {
                    lemma_levels_within(was, was.named, id);
                }
                let d: usize = find_levels(&named, id);
                level = open.len() + d;
                put_node(&mut open, d);
            },
            Mark::Other => {},
        }
        if level > most {
            most = level;
        }
        assert(now =~= (Depths {
            open: counted(open@),
            named: counted(named@),
            most: most as nat,
        }));
        if most > DEEPEST {
            return false;
        }
        i += 1;
    }
    true
}

/// What yaml-rust2 meets in `text`, up to the first thing that it cannot make
/// out.
pub uninterp spec fn yaml_marks(text: Seq<char>) -> Seq<Mark>;

/// `Parser::next_token` of yaml-rust2 over a text, which hands out one event after
/// another until the end or an error, and does not call itself. The events depend
/// on the text alone; of each, its kind is kept and the anchor it has.
#[verifier::external_body]
fn scan_yaml(text: &str) -> (r: Vec<Mark>)
    ensures
        r@ == yaml_marks(text@),
{
    let mut parser = yaml_rust2::parser::Parser::new_from_str(text);
    let next = move || match parser.next_token().ok()?.0 {
        yaml_rust2::Event::StreamEnd => None,
        yaml_rust2::Event::SequenceStart(id, _) => Some(Mark::SequenceStart(id)),
        yaml_rust2::Event::SequenceEnd => Some(Mark::SequenceEnd),
        yaml_rust2::Event::MappingStart(id, _) => Some(Mark::MappingStart(id)),
        yaml_rust2::Event::MappingEnd => Some(Mark::MappingEnd),
        yaml_rust2::Event::Scalar(_, _, id, _) => Some(Mark::Scalar(id)),
        yaml_rust2::Event::Alias(id) => Some(Mark::Alias(id)),
        _ => Some(Mark::Other),
    };
    std::iter::from_fn(next).collect()
}

/// `yaml_rust2::Yaml`, opaque here.
#[verifier::external_type_specification]
#[verifier::external_body]
pub struct ExYaml(yaml_rust2::Yaml);

/// The documents yaml-rust2 reads out of `text`, or why it could not.
pub uninterp spec fn yaml_docs(text: Seq<char>) -> Result<Seq<Node>, Seq<char>>;

/// One `yaml_rust2::Yaml` as a node, its strings, sequences and mappings kept
/// and every other scalar taken for [`Node::Other`]. It calls itself once for each
/// level, and is handed what [`load_yaml`] loaded.
#[verifier::external_body]
fn node_from(y: yaml_rust2::Yaml) -> Node {
    match y {
        yaml_rust2::Yaml::String(s) => Node::Text(s),
        yaml_rust2::Yaml::Array(items) => Node::Items(items.into_iter().map(node_from).collect()),
        yaml_rust2::Yaml::Hash(members) => Node::Members(
            members.into_iter().map(|(k, v)| (node_from(k), node_from(v))).collect(),
        ),
        _ => Node::Other,
    }
}

/// `YamlLoader::load_from_str` of yaml-rust2. What it reads, and the wording of
/// its error, depend on the text alone. It calls itself once for each level of
/// the events that [`scan_yaml`] hands out, and copies what an alias asks for, so it
/// is only handed a text whose levels are bounded.
#[verifier::external_body]
fn load_yaml(text: &str) -> (r: Result<Vec<Node>, String>)
    requires
        most_levels(yaml_marks(text@)) <= DEEPEST,
    ensures
        match r {
            Ok(docs) => yaml_docs(text@) == Ok::<Seq<Node>, Seq<char>>(docs@),
            Err(e) => yaml_docs(text@) == Err::<Seq<Node>, Seq<char>>(e@),
        },
{
    match yaml_rust2::YamlLoader::load_from_str(text) {
        Ok(docs) => Ok(docs.into_iter().map(node_from).collect()),
        Err(e) => Err(e.to_string()),
    }
}

/// The documents in `text`, or why there are none to be had.
pub open spec fn yaml_in(text: Seq<char>) -> Result<Seq<Node>, Seq<char>> {
    if most_levels(yaml_marks(text)) <= DEEPEST {
        yaml_docs(text)
    } else {
        Err(TOO_DEEP@)
    }
}

pub fn read_yaml(text: &str) -> (r: Result<Vec<Node>, String>)
    ensures
        match r {
            Ok(docs) => yaml_in(text@) == Ok::<Seq<Node>, Seq<char>>(docs@),
            Err(e) => yaml_in(text@) == Err::<Seq<Node>, Seq<char>>(e@),
        },
{
    let marks = scan_yaml(text);
    if is_shallow(&marks) {
        load_yaml(text)
    } else {
        Err(TOO_DEEP.to_owned())
    }
}

/// A member is the first one with that name, and only a text is a name.
pub proof fn the_first_member_of_a_name_counts(ms: Seq<(Node, Node)>, key: Seq<char>)
    ensures
        match first_member(ms, key) {
            Some(v) => exists|i: int|
                0 <= i < ms.len() && text_of((#[trigger] ms[i]).0) == Some(key) && ms[i].1 == v
                    && forall|j: int|
                    0 <= j < i ==> text_of((#[trigger] ms[j]).0) != Some(key),
            None => forall|i: int|
                0 <= i < ms.len() ==> text_of((#[trigger] ms[i]).0) != Some(key),
        },
    decreases ms.len(),
{
    if ms.len() > 0 {
        let d = ms.drop_first();
        if text_of(ms[0].0) == Some(key) {
            assert(ms[0].1 == first_member(ms, key)->0);
        } else {
            the_first_member_of_a_name_counts(d, key);
            if first_member(d, key) is Some {
                let i = choose|i: int|
                    0 <= i < d.len() && text_of((#[trigger] d[i]).0) == Some(key) && d[i].1
                        == first_member(d, key)->0 && forall|j: int|
                        0 <= j < i ==> text_of((#[trigger] d[j]).0) != Some(key);
                assert(ms[i + 1] == d[i]);
                assert forall|j: int| 0 <= j < i + 1 implies text_of((#[trigger] ms[j]).0) != Some(
                    key,
                ) by {
                    if j > 0 {
                        assert(d[j - 1] == ms[j]);
                    }
                }
                assert(text_of(ms[i + 1].0) == Some(key));
            } else {
                assert forall|i: int| 0 <= i < ms.len() implies text_of((#[trigger] ms[i]).0)
                    != Some(key) by {
                    if i > 0 {
                        assert(d[i - 1] == ms[i]);
                    }
                }
            }
        }
    }
}

/// A collection inside a collection is a level more: what opens `n` of them one
/// in another is that deep, and five hundred levels are the most that is read.
pub proof fn each_collection_inside_another_is_a_level(ms: Seq<Mark>, n: int)
    requires
        0 <= n <= ms.len(),
        forall|i: int|
            0 <= i < n ==> (#[trigger] ms[i]) is SequenceStart || ms[i] is MappingStart,
    ensures
        depths(ms, n).most == n,
        depths(ms, n).open.len() == n,
    decreases n,
{
    if n > 0 {
        each_collection_inside_another_is_a_level(ms, n - 1);
        assert(ms[n - 1] is SequenceStart || ms[n - 1] is MappingStart);
    }
}

/// What nests more than five hundred levels deep is refused, and anything else
/// is read.
pub proof fn five_hundred_levels_are_read(text: Seq<char>)
    ensures
        most_levels(yaml_marks(text)) <= 500 ==> yaml_in(text) == yaml_docs(text),
        most_levels(yaml_marks(text)) > 500 ==> yaml_in(text) is Err,
{
}

/// An alias is as deep as what it names: naming a collection and using the name
/// inside another adds its levels there.
pub proof fn an_alias_is_as_deep_as_what_it_names(s: Depths, id: usize, d: nat)
    requires
        s.open.len() > 0,
        id != 0,
    ensures
        levels_of(s.named.push((id, d)), id) == d,
        after(s, Mark::Alias(id)).most >= s.open.len() + levels_of(s.named, id),
        s.open.last().0 == id ==> levels_of(closed(s).named, id) == s.open.last().1 + 1,
        closed(s).open.len() == s.open.len() - 1,
        closed(s).most >= s.most,
{
    assert(s.named.push((id, d)).last() == (id, d));
    if s.open.last().0 == id {
        let e = s.open.last().1 + 1;
        assert(closed(s).named == s.named.push((id, e)));
        assert(s.named.push((id, e)).last() == (id, e));
    }
}

} // verus!
