//! Reading and writing JSON text.
//!
//! `serde_json` reads the text, one level at a time: each call tells what
//! kind of value a text holds and hands back its direct children as the
//! compact text `serde_json` prints for them; this module assembles the tree.
//! Writing lays the tree out the way `serde_json`'s pretty printer does (two
//! spaces per level), with `serde_json` quoting the strings.
use vstd::prelude::*;

use crate::json_view::{JsonV, JsonValue, json_list_view, json_members_view, json_view};
use crate::text::{concat2, copy_str, strs_view};
use serde_json::Value;

verus! {

broadcast use {crate::json_view::lemma_json_list_view, crate::json_view::lemma_json_members_view};

// ---------------------------------------------------------------------------
// Reading
// ---------------------------------------------------------------------------

/// One level of a JSON document: its kind, its scalar content, and the texts
/// of its direct children (array elements, or object members by key).
#[derive(Debug, PartialEq, Eq)]
pub enum JsonNode {
    Null,
    Bool(bool),
    Number(String),
    Str(String),
    Array(Vec<String>),
    Object(Vec<(String, String)>),
}

/// The value of a [`JsonNode`].
pub enum JsonNodeV {
    Null,
    Bool(bool),
    Number(Seq<char>),
    Str(Seq<char>),
    Array(Seq<Seq<char>>),
    Object(Seq<(Seq<char>, Seq<char>)>),
}

/// The character sequences of a sequence of string pairs.
pub open spec fn text_pairs_view(v: Seq<(String, String)>) -> Seq<(Seq<char>, Seq<char>)> {
    v.map_values(|p: (String, String)| (p.0@, p.1@))
}

impl View for JsonNode {
    type V = JsonNodeV;

    open spec fn view(&self) -> JsonNodeV {
        match self {
            JsonNode::Null => JsonNodeV::Null,
            JsonNode::Bool(b) => JsonNodeV::Bool(*b),
            JsonNode::Number(n) => JsonNodeV::Number(n@),
            JsonNode::Str(s) => JsonNodeV::Str(s@),
            JsonNode::Array(xs) => JsonNodeV::Array(strs_view(xs@)),
            JsonNode::Object(ms) => JsonNodeV::Object(text_pairs_view(ms@)),
        }
    }
}

/// What `serde_json::from_str::<serde_json::Value>` makes of a text, one level
/// deep: the kind and scalar content of the value (a number as the text
/// `serde_json` prints for it), the compact texts of its array elements in order, or its
/// object members in `serde_json`'s map order (ascending keys, the last of
/// duplicate keys kept) with the compact texts of their values; or the text
/// of the error.
pub uninterp spec fn json_node_of(text: Seq<char>) -> Result<JsonNodeV, Seq<char>>;

/// Reads one level of a JSON text with `serde_json` (see [`json_node_of`]).
#[verifier::external_body]
fn read_json_node(text: &str) -> (r: Result<JsonNode, String>)
    ensures
        match r {
            Ok(n) => json_node_of(text@) == Ok::<JsonNodeV, Seq<char>>(n@),
            Err(e) => json_node_of(text@) == Err::<JsonNodeV, Seq<char>>(e@),
        },
{
    match serde_json::from_str::<Value>(text) {
        Err(e) => Err(e.to_string()),
        Ok(Value::Null) => Ok(JsonNode::Null),
        Ok(Value::Bool(b)) => Ok(JsonNode::Bool(b)),
        Ok(Value::Number(n)) => Ok(JsonNode::Number(n.to_string())),
        Ok(Value::String(s)) => Ok(JsonNode::Str(s)),
        Ok(Value::Array(a)) => Ok(JsonNode::Array(a.iter().map(|x| x.to_string()).collect())),
        Ok(Value::Object(m)) => Ok(JsonNode::Object(
            m.iter().map(|(k, x)| (k.clone(), x.to_string())).collect(),
        )),
    }
}

/// How many levels a document is read to. `serde_json` refuses a document
/// nested 128 levels deep, so every document it reads ends well within this
/// many levels.
pub const JSON_LEVELS: usize = 256;

/// The error given for a document nested deeper than [`JSON_LEVELS`].
pub open spec fn too_deep() -> Seq<char> {
    "recursion limit exceeded"@
}

/// The JSON document a text holds, read level by level (see
/// [`json_node_of`]) to at most [`JSON_LEVELS`] levels, or the first error
/// met.
pub open spec fn json_tree_of(t: Seq<char>) -> Result<JsonV, Seq<char>> {
    json_tree_within(t, JSON_LEVELS as nat)
}

/// The document a text holds, read to at most `levels` levels, or the first
/// error met.
pub open spec fn json_tree_within(t: Seq<char>, levels: nat) -> Result<JsonV, Seq<char>>
    decreases levels, 0int, 0int,
{
    if levels == 0 {
        Err(too_deep())
    } else {
        match json_node_of(t) {
            Err(e) => Err(e),
            Ok(JsonNodeV::Null) => Ok(JsonV::Null),
            Ok(JsonNodeV::Bool(b)) => Ok(JsonV::Bool(b)),
            Ok(JsonNodeV::Number(n)) => Ok(JsonV::Number(n)),
            Ok(JsonNodeV::Str(s)) => Ok(JsonV::Str(s)),
            Ok(JsonNodeV::Array(xs)) => match json_trees((levels - 1) as nat, xs) {
                Ok(vs) => Ok(JsonV::Array(vs)),
                Err(e) => Err(e),
            },
            Ok(JsonNodeV::Object(ms)) => match json_members((levels - 1) as nat, ms) {
                Ok(vs) => Ok(JsonV::Object(vs)),
                Err(e) => Err(e),
            },
        }
    }
}

/// The documents held by texts, each read to at most `levels` levels, or the
/// first error met.
pub open spec fn json_trees(levels: nat, xs: Seq<Seq<char>>) -> Result<Seq<JsonV>, Seq<char>>
    decreases levels, 1int, xs.len(),
{
    if xs.len() == 0 {
        Ok(Seq::empty())
    } else {
        match json_trees(levels, xs.drop_last()) {
            Err(e) => Err(e),
            Ok(vs) => match json_tree_within(xs.last(), levels) {
                Ok(v) => Ok(vs.push(v)),
                Err(e) => Err(e),
            },
        }
    }
}

/// The members with their value texts read to at most `levels` levels, or
/// the first error met.
pub open spec fn json_members(levels: nat, ms: Seq<(Seq<char>, Seq<char>)>) -> Result<
    Seq<(Seq<char>, JsonV)>,
    Seq<char>,
>
    decreases levels, 1int, ms.len(),
{
    if ms.len() == 0 {
        Ok(Seq::empty())
    } else {
        match json_members(levels, ms.drop_last()) {
            Err(e) => Err(e),
            Ok(vs) => match json_tree_within(ms.last().1, levels) {
                Ok(v) => Ok(vs.push((ms.last().0, v))),
                Err(e) => Err(e),
            },
        }
    }
}

proof fn lemma_trees_err(b: nat, xs: Seq<Seq<char>>, i: int, e: Seq<char>)
    requires
        0 <= i <= xs.len(),
        json_trees(b, xs.take(i)) == Err::<Seq<JsonV>, Seq<char>>(e),
    ensures
        json_trees(b, xs) == Err::<Seq<JsonV>, Seq<char>>(e),
    decreases xs.len() - i,
{
    if i < xs.len() {
        assert(xs.take(i + 1).drop_last() =~= xs.take(i));
        lemma_trees_err(b, xs, i + 1, e);
    } else {
        assert(xs.take(i) =~= xs);
    }
}

proof fn lemma_members_err(b: nat, ms: Seq<(Seq<char>, Seq<char>)>, i: int, e: Seq<char>)
    requires
        0 <= i <= ms.len(),
        json_members(b, ms.take(i)) == Err::<Seq<(Seq<char>, JsonV)>, Seq<char>>(e),
    ensures
        json_members(b, ms) == Err::<Seq<(Seq<char>, JsonV)>, Seq<char>>(e),
    decreases ms.len() - i,
{
    if i < ms.len() {
        assert(ms.take(i + 1).drop_last() =~= ms.take(i));
        lemma_members_err(b, ms, i + 1, e);
    } else {
        assert(ms.take(i) =~= ms);
    }
}

/// The value of a parse result.
pub open spec fn json_result(r: Result<JsonValue, String>) -> Result<JsonV, Seq<char>> {
    match r {
        Ok(v) => Ok(v@),
        Err(e) => Err(e@),
    }
}

/// Reads a JSON text into a document (see [`json_tree_of`]); the error is
/// `serde_json`'s message.
pub fn parse_json(text: &str) -> (r: Result<JsonValue, String>)
    ensures
        json_result(r) == json_tree_of(text@),
{
    parse_json_within(text, JSON_LEVELS)
}

/// Reads a JSON text into a document to at most `levels` levels (see
/// [`json_tree_within`]).
fn parse_json_within(text: &str, levels: usize) -> (r: Result<JsonValue, String>)
    ensures
        json_result(r) == json_tree_within(text@, levels as nat),
    decreases levels,
{
    if levels == 0 {
        proof {
            reveal_strlit("recursion limit exceeded");
        }
        return Err(copy_str("recursion limit exceeded"));
    }
    let inner: usize = levels - 1;
    match read_json_node(text) {
        Err(e) => Err(e),
        Ok(JsonNode::Null) => Ok(JsonValue::Null),
        Ok(JsonNode::Bool(b)) => Ok(JsonValue::Bool(b)),
        Ok(JsonNode::Number(n)) => Ok(JsonValue::Number(n)),
        Ok(JsonNode::Str(s)) => Ok(JsonValue::Str(s)),
        Ok(JsonNode::Array(xs)) => {
            let ghost tx = strs_view(xs@);
            let mut vs: Vec<JsonValue> = Vec::new();
            let mut i: usize = 0;
            assert(tx.take(0) =~= Seq::<Seq<char>>::empty());
            while i < xs.len()
                invariant
                    i <= xs.len(),
                    inner + 1 == levels,
                    tx == strs_view(xs@),
                    json_node_of(text@) == Ok::<JsonNodeV, Seq<char>>(JsonNodeV::Array(tx)),
                    json_trees(inner as nat, tx.take(i as int)) == Ok::<Seq<JsonV>, Seq<char>>(
                        json_list_view(vs@),
                    ),
                decreases xs.len() - i,
            {
                assert(tx.take(i + 1).drop_last() =~= tx.take(i as int));
                assert(tx.take(i + 1).last() == xs@[i as int]@);
                match parse_json_within(xs[i].as_str(), inner) {
                    Ok(v) => {
                        let ghost before = json_list_view(vs@);
                        vs.push(v);
                        assert(json_list_view(vs@) =~= before.push(v@));
                    },
                    Err(e) => {
                        proof {
                            lemma_trees_err(inner as nat, tx, i + 1, e@);
                        }
                        return Err(e);
                    },
                }
                i += 1;
            }
            assert(tx.take(xs.len() as int) =~= tx);
            Ok(JsonValue::Array(vs))
        },
        Ok(JsonNode::Object(ms)) => {
            let ghost tm = text_pairs_view(ms@);
            let mut vs: Vec<(String, JsonValue)> = Vec::new();
            let mut i: usize = 0;
            assert(tm.take(0) =~= Seq::<(Seq<char>, Seq<char>)>::empty());
            while i < ms.len()
                invariant
                    i <= ms.len(),
                    inner + 1 == levels,
                    tm == text_pairs_view(ms@),
                    json_node_of(text@) == Ok::<JsonNodeV, Seq<char>>(JsonNodeV::Object(tm)),
                    json_members(inner as nat, tm.take(i as int)) == Ok::<
                        Seq<(Seq<char>, JsonV)>,
                        Seq<char>,
                    >(json_members_view(vs@)),
                decreases ms.len() - i,
            {
                assert(tm.take(i + 1).drop_last() =~= tm.take(i as int));
                assert(tm.take(i + 1).last() == (ms@[i as int].0@, ms@[i as int].1@));
                match parse_json_within(ms[i].1.as_str(), inner) {
                    Ok(v) => {
                        let ghost before = json_members_view(vs@);
                        vs.push((ms[i].0.clone(), v));
                        assert(json_members_view(vs@) =~= before.push((ms@[i as int].0@, v@)));
                    },
                    Err(e) => {
                        proof {
                            lemma_members_err(inner as nat, tm, i + 1, e@);
                        }
                        return Err(e);
                    },
                }
                i += 1;
            }
            assert(tm.take(ms.len() as int) =~= tm);
            Ok(JsonValue::Object(vs))
        },
    }
}

// ---------------------------------------------------------------------------
// Writing
// ---------------------------------------------------------------------------

/// A lowercase hexadecimal digit.
pub open spec fn hex_digit(d: int) -> char {
    if d < 10 {
        (48 + d) as char
    } else {
        (87 + d) as char
    }
}

/// How `serde_json` writes a character inside a string: a quote and a
/// backslash after a backslash, backspace, form feed, line feed, carriage
/// return and tab as `\b`, `\f`, `\n`, `\r` and `\t`, any other control
/// below U+0020 as `\u00` and two lowercase hex digits, and every other
/// character as itself.
pub open spec fn json_char_escape(c: char) -> Seq<char> {
    let u = c as u32;
    if c == '"' {
        seq!['\\', '"']
    } else if c == '\\' {
        seq!['\\', '\\']
    } else if u == 0x08 {
        seq!['\\', 'b']
    } else if u == 0x0C {
        seq!['\\', 'f']
    } else if c == '\n' {
        seq!['\\', 'n']
    } else if c == '\r' {
        seq!['\\', 'r']
    } else if c == '\t' {
        seq!['\\', 't']
    } else if u < 0x20 {
        seq!['\\', 'u', '0', '0', hex_digit((u / 16) as int), hex_digit((u % 16) as int)]
    } else {
        seq![c]
    }
}

/// The characters of a string as `serde_json` writes them inside quotes.
pub open spec fn json_escaped(s: Seq<char>) -> Seq<char>
    decreases s.len(),
{
    if s.len() == 0 {
        Seq::empty()
    } else {
        json_escaped(s.drop_last()) + json_char_escape(s.last())
    }
}

/// What `serde_json::to_string` prints for a string: the string in double
/// quotes, each character escaped as [`json_char_escape`] says.
pub open spec fn json_quoted(s: Seq<char>) -> Seq<char> {
    seq!['"'] + json_escaped(s) + seq!['"']
}

/// Quotes a string as a JSON string literal with `serde_json::to_string`,
/// which escapes as [`json_char_escape`] says (its table of escapes, for a
/// `str`) and cannot fail on a string.
#[verifier::external_body]
pub fn quote_json(s: &str) -> (r: String)
    ensures
        r@ == json_quoted(s@),
{
    serde_json::to_string(s).unwrap_or_default()
}

/// The text of a document laid out over several lines, the way
/// `serde_json::to_string_pretty` lays out a value: each array element and
/// object member on a line of its own, indented two spaces per level, `": "`
/// between a key and its value, `[]` and `{}` for empty arrays and objects.
/// `ind` is the indentation of the line the document starts on.
pub open spec fn pretty(v: JsonV, ind: Seq<char>) -> Seq<char>
    decreases v,
{
    match v {
        JsonV::Null => "null"@,
        JsonV::Bool(b) => if b {
            "true"@
        } else {
            "false"@
        },
        JsonV::Number(n) => n,
        JsonV::Str(s) => json_quoted(s),
        JsonV::Array(xs) => if xs.len() == 0 {
            "[]"@
        } else {
            "[\n"@ + pretty_elems(xs, ind + "  "@) + "\n"@ + ind + "]"@
        },
        JsonV::Object(ms) => if ms.len() == 0 {
            "{}"@
        } else {
            "{\n"@ + pretty_members(ms, ind + "  "@) + "\n"@ + ind + "}"@
        },
    }
}

/// Array elements, one per line, each at indentation `ind`, separated by
/// `",\n"`.
pub open spec fn pretty_elems(xs: Seq<JsonV>, ind: Seq<char>) -> Seq<char>
    decreases xs,
{
    if xs.len() == 0 {
        Seq::empty()
    } else if xs.len() == 1 {
        ind + pretty(xs[0], ind)
    } else {
        pretty_elems(xs.subrange(0, xs.len() - 1), ind) + ",\n"@ + ind + pretty(
            xs[xs.len() - 1],
            ind,
        )
    }
}

/// Object members, one per line, each at indentation `ind`, separated by
/// `",\n"`.
pub open spec fn pretty_members(ms: Seq<(Seq<char>, JsonV)>, ind: Seq<char>) -> Seq<char>
    decreases ms,
{
    if ms.len() == 0 {
        Seq::empty()
    } else if ms.len() == 1 {
        ind + json_quoted(ms[0].0) + ": "@ + pretty(ms[0].1, ind)
    } else {
        pretty_members(ms.subrange(0, ms.len() - 1), ind) + ",\n"@ + ind + json_quoted(
            ms[ms.len() - 1].0,
        ) + ": "@ + pretty(ms[ms.len() - 1].1, ind)
    }
}

/// Appends the pretty layout of `v` (see [`pretty`]) to `out`.
pub fn write_pretty(v: &JsonValue, ind: &String, out: &mut String)
    ensures
        final(out)@ == old(out)@ + pretty(v@, ind@),
    decreases v,
{
    match v {
        JsonValue::Null => {
            out.append("null");
        },
        JsonValue::Bool(b) => {
            if *b {
                out.append("true");
            } else {
                out.append("false");
            }
        },
        JsonValue::Number(n) => {
            out.append(n.as_str());
        },
        JsonValue::Str(s) => {
            let q = quote_json(s.as_str());
            out.append(q.as_str());
        },
        JsonValue::Array(xs) => {
            if xs.len() == 0 {
                out.append("[]");
            } else {
                let inner = concat2(ind.as_str(), "  ");
                let ghost xv = json_list_view(xs@);
                let ghost start = out@;
                out.append("[\n");
                let mut i: usize = 0;
                while i < xs.len()
                    invariant
                        *v is Array && v->Array_0 == *xs,
                        xs.len() > 0,
                        i <= xs.len(),
                        xv == json_list_view(xs@),
                        inner@ == ind@ + "  "@,
                        out@ == start + "[\n"@ + pretty_elems(xv.take(i as int), inner@),
                    decreases xs.len() - i,
                {
                    let ghost before = out@;
                    if i > 0 {
                        out.append(",\n");
                    }
                    out.append(inner.as_str());
                    proof {
                        assert(decreases_to!(*xs => xs@[i as int]));
                        assert(decreases_to!(*v => v->Array_0));
                    }
                    write_pretty(&xs[i], &inner, out);
                    proof {
                        let t = xv.take(i + 1);
                        assert(t.subrange(0, t.len() - 1) =~= xv.take(i as int));
                        assert(json_list_view(xs@).len() == xs@.len());
                        assert(json_list_view(xs@)[i as int] == json_view(xs@[i as int]));
                        assert(t[t.len() - 1] == xs@[i as int]@);
                        if i == 0 {
                            assert(out@ =~= start + "[\n"@ + pretty_elems(t, inner@));
                        } else {
                            assert(out@ =~= start + "[\n"@ + pretty_elems(t, inner@));
                        }
                    }
                    i += 1;
                }
                out.append("\n");
                out.append(ind.as_str());
                out.append("]");
                proof {
                    assert(xv.take(xs.len() as int) =~= xv);
                    assert(out@ =~= start + pretty(v@, ind@));
                }
            }
        },
        JsonValue::Object(ms) => {
            if ms.len() == 0 {
                out.append("{}");
            } else {
                let inner = concat2(ind.as_str(), "  ");
                let ghost mv = json_members_view(ms@);
                let ghost start = out@;
                out.append("{\n");
                let mut i: usize = 0;
                while i < ms.len()
                    invariant
                        *v is Object && v->Object_0 == *ms,
                        ms.len() > 0,
                        i <= ms.len(),
                        mv == json_members_view(ms@),
                        inner@ == ind@ + "  "@,
                        out@ == start + "{\n"@ + pretty_members(mv.take(i as int), inner@),
                    decreases ms.len() - i,
                {
                    if i > 0 {
                        out.append(",\n");
                    }
                    out.append(inner.as_str());
                    let q = quote_json(ms[i].0.as_str());
                    out.append(q.as_str());
                    out.append(": ");
                    proof {
                        assert(decreases_to!(*ms => ms@[i as int]));
                        assert(decreases_to!(*v => v->Object_0));
                        assert(decreases_to!(ms@[i as int] => ms@[i as int].1));
                    }
                    write_pretty(&ms[i].1, &inner, out);
                    proof {
                        let t = mv.take(i + 1);
                        assert(t.subrange(0, t.len() - 1) =~= mv.take(i as int));
                        assert(json_members_view(ms@).len() == ms@.len());
                        assert(json_members_view(ms@)[i as int] == (ms@[i as int].0@, json_view(ms@[i as int].1)));
                        assert(t[t.len() - 1] == (ms@[i as int].0@, ms@[i as int].1@));
                        assert(out@ =~= start + "{\n"@ + pretty_members(t, inner@));
                    }
                    i += 1;
                }
                out.append("\n");
                out.append(ind.as_str());
                out.append("}");
                proof {
                    assert(mv.take(ms.len() as int) =~= mv);
                    assert(out@ =~= start + pretty(v@, ind@));
                }
            }
        },
    }
}

/// The pretty layout of a document (see [`pretty`]), from column zero.
pub fn to_pretty_json(v: &JsonValue) -> (r: String)
    ensures
        r@ == pretty(v@, Seq::empty()),
{
    let mut out = String::new();
    let ind = String::new();
    write_pretty(v, &ind, &mut out);
    assert(out@ =~= pretty(v@, Seq::empty()));
    out
}

} // verus!
