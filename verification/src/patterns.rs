//! DynamoDB key access patterns (e.g. name `User connection`, partition key
//! template `ORG#${orgId}#USER#${userId}`, sort key template
//! `CONNECTION#${connectionId}`), and the set of favorite pattern names.
use vstd::prelude::*;

use crate::json::json_quoted;
use crate::sets::{insert_string, strs_from, lemma_strs_from_sorted};
use crate::text::{strictly_sorted, strs_view};

verus! {

/// A key access pattern: its name and its key templates (the sort key
/// template empty when the pattern has none).
#[derive(Clone, Debug, PartialEq, Eq)]
pub struct KeyPattern {
    pub name: String,
    pub pk: String,
    pub sk: String,
}

impl View for KeyPattern {
    type V = (Seq<char>, Seq<char>, Seq<char>);

    open spec fn view(&self) -> (Seq<char>, Seq<char>, Seq<char>) {
        (self.name@, self.pk@, self.sk@)
    }
}

impl KeyPattern {
    /// A copy of this pattern.
    pub fn copy(&self) -> (r: KeyPattern)
        ensures
            r@ == self@,
    {
        KeyPattern { name: self.name.clone(), pk: self.pk.clone(), sk: self.sk.clone() }
    }
}

/// The values of patterns.
pub open spec fn patterns_view(v: Seq<KeyPattern>) -> Seq<(Seq<char>, Seq<char>, Seq<char>)> {
    v.map_values(|p: KeyPattern| p@)
}

/// The favorite names held as a set: ascending, each once.
pub fn favorites_from(names: &Vec<String>) -> (r: Vec<String>)
    ensures
        strs_view(r@) == strs_from(strs_view(names@)),
        strictly_sorted(strs_view(r@)),
{
    let ghost nv = strs_view(names@);
    let mut r: Vec<String> = Vec::new();
    let mut i: usize = 0;
    assert(strs_view(r@) =~= strs_from(nv.take(0)));
    while i < names.len()
        invariant
            i <= names.len(),
            nv == strs_view(names@),
            strs_view(r@) == strs_from(nv.take(i as int)),
        decreases names.len() - i,
    {
        insert_string(&mut r, names[i].clone());
        proof {
            let t = nv.take(i + 1);
            assert(t.drop_last() =~= nv.take(i as int));
            assert(t.last() == names@[i as int]@);
        }
        i += 1;
    }
    assert(nv.take(names.len() as int) =~= nv);
    proof {
        lemma_strs_from_sorted(nv);
    }
    r
}

// ---------------------------------------------------------------------------
// The favorites file
// ---------------------------------------------------------------------------

/// What `serde_json::from_str::<Vec<String>>` reads from a favorites text:
/// the names, in order, or none when the text is not a JSON array of
/// strings.
pub uninterp spec fn favorites_json(text: Seq<char>) -> Option<Seq<Seq<char>>>;

/// Reads the names in a favorites text with `serde_json` (see
/// [`favorites_json`]).
#[verifier::external_body]
fn read_favorites_json(text: &str) -> (r: Option<Vec<String>>)
    ensures
        match r {
            Some(v) => favorites_json(text@) == Some(strs_view(v@)),
            None => favorites_json(text@) is None,
        },
{
    serde_json::from_str::<Vec<String>>(text).ok()
}

/// The favorites a file's text holds, as a set (ascending, each once); none
/// when the text does not read as a JSON array of strings.
pub fn favorites_from_text(text: &str) -> (r: Vec<String>)
    ensures
        strictly_sorted(strs_view(r@)),
        strs_view(r@) == match favorites_json(text@) {
            Some(ns) => strs_from(ns),
            None => Seq::empty(),
        },
{
    match read_favorites_json(text) {
        Some(v) => favorites_from(&v),
        None => {
            let r: Vec<String> = Vec::new();
            assert(strs_view(r@) =~= Seq::<Seq<char>>::empty());
            r
        },
    }
}

/// The lines of the names in `serde_json`'s pretty layout of an array of
/// strings: each name quoted, indented two spaces, `,` and a line break
/// between two.
pub open spec fn favorites_lines(ns: Seq<Seq<char>>) -> Seq<char>
    decreases ns.len(),
{
    if ns.len() == 0 {
        Seq::empty()
    } else if ns.len() == 1 {
        "  "@ + json_quoted(ns[0])
    } else {
        favorites_lines(ns.drop_last()) + ",\n  "@ + json_quoted(ns.last())
    }
}

/// What `serde_json::to_string_pretty` prints for an array of strings: `[]`
/// when it is empty, else `[`, a line per name (see [`favorites_lines`]) and
/// `]` on a line of its own.
pub open spec fn favorites_text_spec(ns: Seq<Seq<char>>) -> Seq<char> {
    if ns.len() == 0 {
        "[]"@
    } else {
        "[\n"@ + favorites_lines(ns) + "\n]"@
    }
}

/// Prints names with `serde_json::to_string_pretty`, which lays out an array
/// of strings as [`favorites_text_spec`] says and cannot fail on one.
#[verifier::external_body]
fn pretty_names(names: &Vec<String>) -> (r: String)
    ensures
        r@ == favorites_text_spec(strs_view(names@)),
{
    serde_json::to_string_pretty(names).unwrap_or_default()
}

/// The text of the favorites file: the names ascending, each once, as a
/// pretty JSON array of strings.
pub fn favorites_file_text(favorites: &Vec<String>) -> (r: String)
    ensures
        r@ == favorites_text_spec(strs_from(strs_view(favorites@))),
{
    let sorted = favorites_from(favorites);
    pretty_names(&sorted)
}

} // verus!
