//! Reading the project's manifest, which is JSON.

use vstd::prelude::*;

verus! {

/// What a manifest says under two names, one inside the other.
#[derive(Debug)]
pub enum Lookup {
    /// The text is not JSON.
    NotJson,
    /// There is nothing there.
    Absent,
    /// A string.
    Text(String),
    /// Something that is not a string.
    Other,
}

/// A [`Lookup`], with its text as characters.
pub enum Entry {
    NotJson,
    Absent,
    Text(Seq<char>),
    Other,
}

impl View for Lookup {
    type V = Entry;

    open spec fn view(&self) -> Entry {
        match *self {
            Lookup::NotJson => Entry::NotJson,
            Lookup::Absent => Entry::Absent,
            Lookup::Text(s) => Entry::Text(s@),
            Lookup::Other => Entry::Other,
        }
    }
}

/// What serde_json finds in `text` under `outer` and, inside that, `inner`.
pub uninterp spec fn json_entry(text: Seq<char>, outer: Seq<char>, inner: Seq<char>) -> Entry;

/// `serde_json::from_str` and `Value::get` of the serde_json crate. What they
/// find depends on the text and the two names alone.
#[verifier::external_body]
pub(crate) fn json_lookup(text: &str, outer: &str, inner: &str) -> (r: Lookup)
    ensures
        r@ == json_entry(text@, outer@, inner@),
{
    match serde_json::from_str::<serde_json::Value>(text) {
        Err(_) => Lookup::NotJson,
        Ok(json) => match json.get(outer).and_then(|o| o.get(inner)) {
            None => Lookup::Absent,
            Some(serde_json::Value::String(s)) => Lookup::Text(s.to_string()),
            Some(_) => Lookup::Other,
        },
    }
}

} // verus!
