//! JSON, as far as it is needed here: text as it is written inside a script, a
//! JSON string being a JavaScript one too, and what a page hands back.

use vstd::prelude::*;
use crate::text::opt_view;
use crate::util::hex_digit;

verus! {

/// How a character is written between the quotes of a JSON string.
pub open spec fn json_char(c: char) -> Seq<char> {
    if c == '"' {
        seq!['\\', '"']
    } else if c == '\\' {
        seq!['\\', '\\']
    } else if c as int == 8 {
        seq!['\\', 'b']
    } else if c == '\t' {
        seq!['\\', 't']
    } else if c == '\n' {
        seq!['\\', 'n']
    } else if c as int == 12 {
        seq!['\\', 'f']
    } else if c == '\r' {
        seq!['\\', 'r']
    } else if 32 > c as int {
        seq!['\\', 'u', '0', '0', hex_digit(c as int / 16), hex_digit(c as int % 16)]
    } else {
        seq![c]
    }
}

pub open spec fn json_chars(s: Seq<char>) -> Seq<char>
    decreases s.len(),
{
    if s.len() == 0 {
        s
    } else {
        json_chars(s.drop_last()) + json_char(s.last())
    }
}

/// A text as a JSON string, quotes and all.
pub open spec fn json_string(s: Seq<char>) -> Seq<char> {
    seq!['"'] + json_chars(s) + seq!['"']
}

/// [`serde_json::to_string`] of a string: the text between double quotes, with
/// quotes, backslashes and control characters escaped and everything else as
/// it is. It does not fail on a string.
#[verifier::external_body]
pub(crate) fn quote(s: &str) -> (r: String)
    ensures
        r@ == json_string(s@),
{
    serde_json::to_string(s).unwrap()
}

/// What a text is, read as JSON.
#[derive(Debug)]
pub enum Content {
    /// It is not JSON.
    NotJson,
    /// It is a string, and this is what the string holds.
    Text(String),
    /// It is JSON, and not a string.
    Other,
}

/// A [`Content`], with its text as characters.
#[verifier::ext_equal]
pub enum Held {
    NotJson,
    Text(Seq<char>),
    Other,
}

impl View for Content {
    type V = Held;

    open spec fn view(&self) -> Held {
        match self {
            Content::NotJson => Held::NotJson,
            Content::Text(s) => Held::Text(s@),
            Content::Other => Held::Other,
        }
    }
}

/// What serde_json reads `text` as.
pub uninterp spec fn json_content(text: Seq<char>) -> Held;

/// `serde_json::from_str` into a `Value` of the serde_json crate. What it reads
/// depends on the text alone.
#[verifier::external_body]
pub(crate) fn content(text: &str) -> (r: Content)
    ensures
        r@ == json_content(text@),
{
    match serde_json::from_str::<serde_json::Value>(text) {
        Err(_) => Content::NotJson,
        Ok(serde_json::Value::String(s)) => Content::Text(s),
        Ok(_) => Content::Other,
    }
}

/// What serde_json finds in `text` under `key`, written as JSON.
pub uninterp spec fn json_member(text: Seq<char>, key: Seq<char>) -> Option<Seq<char>>;

/// `serde_json::Value::get` by a name, with what it finds written by `Value`'s
/// `Display`. It finds nothing in a text that is not JSON or is no object, and
/// what it finds depends on the text and the name alone.
#[verifier::external_body]
pub(crate) fn member(text: &str, key: &str) -> (r: Option<String>)
    ensures
        opt_view(r) == json_member(text@, key@),
{
    let json = serde_json::from_str::<serde_json::Value>(text).ok()?;
    json.get(key).map(|v| v.to_string())
}

/// A JSON text as serde_json writes it; `None` if it is not JSON.
pub uninterp spec fn json_written(text: Seq<char>) -> Option<Seq<char>>;

/// `Display` of a `serde_json::Value` that was read from `text`. How it is
/// written depends on the text alone. It is written without line breaks: nothing
/// stands between the tokens, and control characters in a string are escaped.
#[verifier::external_body]
pub(crate) fn rewritten(text: &str) -> (r: Option<String>)
    ensures
        opt_view(r) == json_written(text@),
        r matches Some(t) ==> forall|i: int| 0 <= i < t@.len() ==> #[trigger] t@[i] >= ' ',
{
    let json = serde_json::from_str::<serde_json::Value>(text).ok()?;
    Some(json.to_string())
}

proof fn lemma_plain_char(c: char)
    ensures
        forall|i: int| 0 <= i < json_char(c).len() ==> #[trigger] json_char(c)[i] >= ' ',
{
    let e = json_char(c);
    let n = c as int;
    if 32 > n {
        assert(hex_digit(n / 16) as int == n / 16 + 48);
        let low = hex_digit(n % 16);
        assert(low as int == n % 16 + 48 || low as int == n % 16 + 87);
    }
    assert forall|i: int| 0 <= i < e.len() implies #[trigger] e[i] >= ' ' by {
        assert(i == 0 || i == 1 || i == 2 || i == 3 || i == 4 || i == 5);
    }
}

proof fn lemma_plain(s: Seq<char>)
    ensures
        forall|i: int| 0 <= i < json_chars(s).len() ==> #[trigger] json_chars(s)[i] >= ' ',
    decreases s.len(),
{
    if s.len() > 0 {
        lemma_plain(s.drop_last());
        let d = json_chars(s.drop_last());
        let e = json_char(s.last());
        let all = json_chars(s);
        lemma_plain_char(s.last());
        assert forall|i: int| 0 <= i < all.len() implies #[trigger] all[i] >= ' ' by {
            if i < d.len() {
                assert(all[i] == d[i]);
            } else {
                assert(all[i] == e[i - d.len()]);
            }
        }
    }
}

/// Whatever a text holds, quoting it leaves it on one line.
pub proof fn a_quoted_text_is_one_line(s: Seq<char>)
    ensures
        forall|i: int| 0 <= i < json_string(s).len() ==> #[trigger] json_string(s)[i] != '\n',
{
    lemma_plain(s);
    let q = json_string(s);
    let inner = json_chars(s);
    assert forall|i: int| 0 <= i < q.len() implies #[trigger] q[i] != '\n' by {
        if 0 < i < q.len() - 1 {
            assert(q[i] == inner[i - 1]);
        }
    }
}

} // verus!
