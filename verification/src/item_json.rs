//! Items as JSON text, in two forms:
//!
//! - typed JSON, DynamoDB's own form, e.g. `{"age":{"N":"30"},"name":{"S":"x"}}`,
//!   which says the type of every value and so keeps N apart from S, sets
//!   (SS/NS/BS) and binaries (B);
//! - plain JSON, e.g. `{"age":30,"name":"x"}`, from which types are inferred:
//!   numbers become N, arrays L, objects M, `null` NULL. It cannot express
//!   sets or binaries (see [`is_plain_convertible`]).
use vstd::prelude::*;

use crate::client::key_names;
use crate::data::{
    AttrMap, AttrV, Attribute, Item, KeySchemaType, attr_wf, blobs_view, entries_wf,
    has_key, keys_of, lemma_map_insert, list_view, lookup, map_insert,
    numbers_sorted, };
use crate::json::{json_tree_of, parse_json};
use crate::json_view::{JsonV, JsonValue, json_list_view, json_members_view};
use crate::number::{Number, decimal_parse, parse_number};
use crate::sets::{
    blobs_from, insert_bytes, insert_number, insert_string, lemma_nums_insert_sorted, nums_from, strs_from,
};
use crate::text::{concat2, concat3, copy_str, strs_view};
use crate::util::{base64_decode, from_base64_str};

verus! {

broadcast use {
    crate::json_view::lemma_json_list_view,
    crate::json_view::lemma_json_members_view,
    crate::data_view::lemma_list_view,
    crate::data_view::lemma_pairs_view,
};

// ---------------------------------------------------------------------------
// Reading: specifications
// ---------------------------------------------------------------------------

/// The number with the given sign, magnitude and scale.
pub open spec fn number_of(p: (bool, nat, nat)) -> Number {
    Number { negative: p.0, magnitude: p.1 as u128, scale: p.2 as u32 }
}

/// A string value, or the error `"<ctx> must be a string"`.
pub open spec fn str_of(v: JsonV, ctx: Seq<char>) -> Result<Seq<char>, Seq<char>> {
    match v {
        JsonV::Str(s) => Ok(s),
        _ => Err(ctx + " must be a string"@),
    }
}

/// A number given as a numeric string (or, for convenience, a bare JSON
/// number), parsed as a decimal.
pub open spec fn decimal_of(v: JsonV, ctx: Seq<char>) -> Result<Number, Seq<char>> {
    let s = match v {
        JsonV::Str(s) => Some(s),
        JsonV::Number(n) => Some(n),
        _ => None,
    };
    match s {
        None => Err(ctx + " must be a numeric string"@),
        Some(s) => match decimal_parse(s) {
            Ok(p) => Ok(number_of(p)),
            Err(e) => Err("invalid "@ + ctx + " number "@ + s + ": "@ + e),
        },
    }
}

/// Bytes given as a base64 string.
pub open spec fn blob_of(v: JsonV, ctx: Seq<char>) -> Result<Seq<u8>, Seq<char>> {
    match str_of(v, ctx) {
        Err(e) => Err(e),
        Ok(s) => match base64_decode(s) {
            Ok(b) => Ok(b),
            Err(e) => Err(ctx + " must be base64: "@ + e),
        },
    }
}

/// The strings of a list of set elements, or the first error.
pub open spec fn strs_of(xs: Seq<JsonV>) -> Result<Seq<Seq<char>>, Seq<char>>
    decreases xs.len(),
{
    if xs.len() == 0 {
        Ok(Seq::empty())
    } else {
        match strs_of(xs.drop_last()) {
            Err(e) => Err(e),
            Ok(ss) => match str_of(xs.last(), "SS element"@) {
                Ok(s) => Ok(ss.push(s)),
                Err(e) => Err(e),
            },
        }
    }
}

/// The numbers of a list of set elements, or the first error.
pub open spec fn nums_of(xs: Seq<JsonV>) -> Result<Seq<Number>, Seq<char>>
    decreases xs.len(),
{
    if xs.len() == 0 {
        Ok(Seq::empty())
    } else {
        match nums_of(xs.drop_last()) {
            Err(e) => Err(e),
            Ok(ns) => match decimal_of(xs.last(), "NS element"@) {
                Ok(n) => Ok(ns.push(n)),
                Err(e) => Err(e),
            },
        }
    }
}

/// The byte strings of a list of set elements, or the first error.
pub open spec fn blobs_of(xs: Seq<JsonV>) -> Result<Seq<Seq<u8>>, Seq<char>>
    decreases xs.len(),
{
    if xs.len() == 0 {
        Ok(Seq::empty())
    } else {
        match blobs_of(xs.drop_last()) {
            Err(e) => Err(e),
            Ok(bs) => match blob_of(xs.last(), "BS element"@) {
                Ok(b) => Ok(bs.push(b)),
                Err(e) => Err(e),
            },
        }
    }
}

/// The error for an attribute that is not a one-member object.
pub open spec fn not_typed_msg() -> Seq<char> {
    "each attribute must be a `{\"<type>\": <value>}` object"@
}

/// The error for an attribute object with more or fewer than one member.
pub open spec fn one_key_msg() -> Seq<char> {
    "each attribute object must have exactly one type key"@
}

/// The attribute a typed-JSON value stands for: a one-member object whose
/// key names the type (`S`, `N`, `B`, `BOOL`, `NULL`, `L`, `M`, `SS`, `NS`,
/// `BS`) and whose value holds the content; or the first error met, in
/// document order.
pub open spec fn typed_attr(v: JsonV) -> Result<AttrV, Seq<char>>
    decreases v,
{
    match v {
        JsonV::Object(ms) => if ms.len() != 1 {
            Err(one_key_msg())
        } else {
            let t = ms[0].0;
            let val = ms[0].1;
            if t == "S"@ {
                match str_of(val, "S"@) {
                    Ok(s) => Ok(AttrV::S(s)),
                    Err(e) => Err(e),
                }
            } else if t == "N"@ {
                match decimal_of(val, "N"@) {
                    Ok(n) => Ok(AttrV::N(n)),
                    Err(e) => Err(e),
                }
            } else if t == "B"@ {
                match blob_of(val, "B"@) {
                    Ok(b) => Ok(AttrV::B(b)),
                    Err(e) => Err(e),
                }
            } else if t == "BOOL"@ {
                match val {
                    JsonV::Bool(b) => Ok(AttrV::BOOL(b)),
                    _ => Err("BOOL must be a boolean"@),
                }
            } else if t == "NULL"@ {
                Ok(AttrV::NULL)
            } else if t == "L"@ {
                match val {
                    JsonV::Array(xs) => match typed_list(xs) {
                        Ok(vs) => Ok(AttrV::L(vs)),
                        Err(e) => Err(e),
                    },
                    _ => Err("L must be an array"@),
                }
            } else if t == "M"@ {
                match val {
                    JsonV::Object(es) => match typed_map(es) {
                        Ok(m) => Ok(AttrV::M(m)),
                        Err(e) => Err(e),
                    },
                    _ => Err("M must be an object"@),
                }
            } else if t == "SS"@ {
                match val {
                    JsonV::Array(xs) => match strs_of(xs) {
                        Ok(ss) => Ok(AttrV::SS(strs_from(ss))),
                        Err(e) => Err(e),
                    },
                    _ => Err("SS must be an array"@),
                }
            } else if t == "NS"@ {
                match val {
                    JsonV::Array(xs) => match nums_of(xs) {
                        Ok(ns) => Ok(AttrV::NS(nums_from(ns))),
                        Err(e) => Err(e),
                    },
                    _ => Err("NS must be an array"@),
                }
            } else if t == "BS"@ {
                match val {
                    JsonV::Array(xs) => match blobs_of(xs) {
                        Ok(bs) => Ok(AttrV::BS(blobs_from(bs))),
                        Err(e) => Err(e),
                    },
                    _ => Err("BS must be an array"@),
                }
            } else {
                Err("unknown attribute type: "@ + t)
            }
        },
        _ => Err(not_typed_msg()),
    }
}

/// The DynamoDB type name of an attribute.
pub open spec fn dynamo_type_of(a: AttrV) -> Seq<char> {
    match a {
        AttrV::S(_) => "S"@,
        AttrV::N(_) => "N"@,
        AttrV::B(_) => "B"@,
        AttrV::BOOL(_) => "BOOL"@,
        AttrV::NULL => "NULL"@,
        AttrV::L(_) => "L"@,
        AttrV::M(_) => "M"@,
        AttrV::SS(_) => "SS"@,
        AttrV::NS(_) => "NS"@,
        AttrV::BS(_) => "BS"@,
    }
}

/// The typed reader keeps types apart: an attribute written `{"T": v}`,
/// when it reads, is of type `T` (a number stays a number, a set a set, a
/// binary a binary).
pub proof fn lemma_typed_attr_keeps_type(t: Seq<char>, v: JsonV)
    ensures
        typed_attr(JsonV::Object(seq![(t, v)])) matches Ok(a) ==> dynamo_type_of(a) == t,
{
    let ms = seq![(t, v)];
    assert(ms.len() == 1 && ms[0].0 == t && ms[0].1 == v);
}

/// An attribute written `{"N": v}` reads only as a number: whenever the
/// typed reader accepts it, the attribute is an N; a number given as a bare
/// JSON number token or as a string is the decimal that text parses to.
pub proof fn lemma_typed_number_reads_as_number(v: JsonV)
    ensures
        typed_attr(JsonV::Object(seq![("N"@, v)])) matches Ok(a) ==> a is N,
        v matches JsonV::Number(t) ==> (decimal_parse(t) matches Ok(p) ==> typed_attr(
            JsonV::Object(seq![("N"@, v)]),
        ) == Ok::<AttrV, Seq<char>>(AttrV::N(Number { negative: p.0, magnitude: p.1 as u128, scale: p.2 as u32 }))),
        v matches JsonV::Str(t) ==> (decimal_parse(t) matches Ok(p) ==> typed_attr(
            JsonV::Object(seq![("N"@, v)]),
        ) == Ok::<AttrV, Seq<char>>(AttrV::N(Number { negative: p.0, magnitude: p.1 as u128, scale: p.2 as u32 }))),
{
    reveal_strlit("S");
    reveal_strlit("N");
    assert("N"@[0] != "S"@[0]);
    let ms = seq![("N"@, v)];
    assert(ms.len() == 1 && ms[0].0 == "N"@ && ms[0].1 == v);
}

/// The attributes of a list of typed-JSON values, or the first error.
pub open spec fn typed_list(xs: Seq<JsonV>) -> Result<Seq<AttrV>, Seq<char>>
    decreases xs,
{
    if xs.len() == 0 {
        Ok(Seq::empty())
    } else {
        match typed_list(xs.subrange(0, xs.len() - 1)) {
            Err(e) => Err(e),
            Ok(vs) => match typed_attr(xs[xs.len() - 1]) {
                Ok(a) => Ok(vs.push(a)),
                Err(e) => Err(e),
            },
        }
    }
}

/// The map of named typed-JSON values, each stored under its name in turn
/// (a later value replacing an earlier one of the same name), or the first
/// error.
pub open spec fn typed_map(es: Seq<(Seq<char>, JsonV)>) -> Result<Seq<(Seq<char>, AttrV)>, Seq<char>>
    decreases es,
{
    if es.len() == 0 {
        Ok(Seq::empty())
    } else {
        match typed_map(es.subrange(0, es.len() - 1)) {
            Err(e) => Err(e),
            Ok(m) => match typed_attr(es[es.len() - 1].1) {
                Ok(a) => Ok(map_insert(m, es[es.len() - 1].0, a)),
                Err(e) => Err(e),
            },
        }
    }
}

/// The attribute a plain-JSON value stands for: `null` is NULL, booleans
/// BOOL, strings S, numbers N, arrays L and objects M; or the first error.
pub open spec fn plain_attr(v: JsonV) -> Result<AttrV, Seq<char>>
    decreases v,
{
    match v {
        JsonV::Null => Ok(AttrV::NULL),
        JsonV::Bool(b) => Ok(AttrV::BOOL(b)),
        JsonV::Str(s) => Ok(AttrV::S(s)),
        JsonV::Number(n) => match decimal_parse(n) {
            Ok(p) => Ok(AttrV::N(number_of(p))),
            Err(e) => Err("invalid number "@ + n + ": "@ + e),
        },
        JsonV::Array(xs) => match plain_list(xs) {
            Ok(vs) => Ok(AttrV::L(vs)),
            Err(e) => Err(e),
        },
        JsonV::Object(es) => match plain_map(es) {
            Ok(m) => Ok(AttrV::M(m)),
            Err(e) => Err(e),
        },
    }
}

/// The attributes of a list of plain-JSON values, or the first error.
pub open spec fn plain_list(xs: Seq<JsonV>) -> Result<Seq<AttrV>, Seq<char>>
    decreases xs,
{
    if xs.len() == 0 {
        Ok(Seq::empty())
    } else {
        match plain_list(xs.subrange(0, xs.len() - 1)) {
            Err(e) => Err(e),
            Ok(vs) => match plain_attr(xs[xs.len() - 1]) {
                Ok(a) => Ok(vs.push(a)),
                Err(e) => Err(e),
            },
        }
    }
}

/// The map of named plain-JSON values (see [`typed_map`]), or the first
/// error.
pub open spec fn plain_map(es: Seq<(Seq<char>, JsonV)>) -> Result<Seq<(Seq<char>, AttrV)>, Seq<char>>
    decreases es,
{
    if es.len() == 0 {
        Ok(Seq::empty())
    } else {
        match plain_map(es.subrange(0, es.len() - 1)) {
            Err(e) => Err(e),
            Ok(m) => match plain_attr(es[es.len() - 1].1) {
                Ok(a) => Ok(map_insert(m, es[es.len() - 1].0, a)),
                Err(e) => Err(e),
            },
        }
    }
}

/// The item a typed-JSON text stands for: a JSON object whose members are
/// the attributes; or the error (`invalid JSON: ...` for text that is not
/// JSON).
pub open spec fn item_typed(text: Seq<char>) -> Result<Seq<(Seq<char>, AttrV)>, Seq<char>> {
    match json_tree_of(text) {
        Err(e) => Err("invalid JSON: "@ + e),
        Ok(JsonV::Object(ms)) => typed_map(ms),
        Ok(_) => Err("top level must be a JSON object"@),
    }
}

/// The item a plain-JSON text stands for (see [`item_typed`]).
pub open spec fn item_plain(text: Seq<char>) -> Result<Seq<(Seq<char>, AttrV)>, Seq<char>> {
    match json_tree_of(text) {
        Err(e) => Err("invalid JSON: "@ + e),
        Ok(JsonV::Object(ms)) => plain_map(ms),
        Ok(_) => Err("top level must be a JSON object"@),
    }
}

/// The value of an attribute result.
pub open spec fn attr_result(r: Result<Attribute, String>) -> Result<AttrV, Seq<char>> {
    match r {
        Ok(a) => Ok(a@),
        Err(e) => Err(e@),
    }
}

/// The value of an item result.
pub open spec fn item_result(r: Result<Item, String>) -> Result<Seq<(Seq<char>, AttrV)>, Seq<char>> {
    match r {
        Ok(it) => Ok(it@),
        Err(e) => Err(e@),
    }
}

// ---------------------------------------------------------------------------
// Prefix errors
// ---------------------------------------------------------------------------

proof fn lemma_typed_list_err(xs: Seq<JsonV>, i: int, e: Seq<char>)
    requires
        0 <= i <= xs.len(),
        typed_list(xs.take(i)) == Err::<Seq<AttrV>, Seq<char>>(e),
    ensures
        typed_list(xs) == Err::<Seq<AttrV>, Seq<char>>(e),
    decreases xs.len() - i,
{
    if i < xs.len() {
        assert(xs.take(i + 1).subrange(0, i) =~= xs.take(i));
        lemma_typed_list_err(xs, i + 1, e);
    } else {
        assert(xs.take(i) =~= xs);
    }
}

proof fn lemma_typed_map_err(es: Seq<(Seq<char>, JsonV)>, i: int, e: Seq<char>)
    requires
        0 <= i <= es.len(),
        typed_map(es.take(i)) == Err::<Seq<(Seq<char>, AttrV)>, Seq<char>>(e),
    ensures
        typed_map(es) == Err::<Seq<(Seq<char>, AttrV)>, Seq<char>>(e),
    decreases es.len() - i,
{
    if i < es.len() {
        assert(es.take(i + 1).subrange(0, i) =~= es.take(i));
        lemma_typed_map_err(es, i + 1, e);
    } else {
        assert(es.take(i) =~= es);
    }
}

proof fn lemma_plain_list_err(xs: Seq<JsonV>, i: int, e: Seq<char>)
    requires
        0 <= i <= xs.len(),
        plain_list(xs.take(i)) == Err::<Seq<AttrV>, Seq<char>>(e),
    ensures
        plain_list(xs) == Err::<Seq<AttrV>, Seq<char>>(e),
    decreases xs.len() - i,
{
    if i < xs.len() {
        assert(xs.take(i + 1).subrange(0, i) =~= xs.take(i));
        lemma_plain_list_err(xs, i + 1, e);
    } else {
        assert(xs.take(i) =~= xs);
    }
}

proof fn lemma_plain_map_err(es: Seq<(Seq<char>, JsonV)>, i: int, e: Seq<char>)
    requires
        0 <= i <= es.len(),
        plain_map(es.take(i)) == Err::<Seq<(Seq<char>, AttrV)>, Seq<char>>(e),
    ensures
        plain_map(es) == Err::<Seq<(Seq<char>, AttrV)>, Seq<char>>(e),
    decreases es.len() - i,
{
    if i < es.len() {
        assert(es.take(i + 1).subrange(0, i) =~= es.take(i));
        lemma_plain_map_err(es, i + 1, e);
    } else {
        assert(es.take(i) =~= es);
    }
}

proof fn lemma_strs_of_err(xs: Seq<JsonV>, i: int, e: Seq<char>)
    requires
        0 <= i <= xs.len(),
        strs_of(xs.take(i)) == Err::<Seq<Seq<char>>, Seq<char>>(e),
    ensures
        strs_of(xs) == Err::<Seq<Seq<char>>, Seq<char>>(e),
    decreases xs.len() - i,
{
    if i < xs.len() {
        assert(xs.take(i + 1).drop_last() =~= xs.take(i));
        lemma_strs_of_err(xs, i + 1, e);
    } else {
        assert(xs.take(i) =~= xs);
    }
}

proof fn lemma_nums_of_err(xs: Seq<JsonV>, i: int, e: Seq<char>)
    requires
        0 <= i <= xs.len(),
        nums_of(xs.take(i)) == Err::<Seq<Number>, Seq<char>>(e),
    ensures
        nums_of(xs) == Err::<Seq<Number>, Seq<char>>(e),
    decreases xs.len() - i,
{
    if i < xs.len() {
        assert(xs.take(i + 1).drop_last() =~= xs.take(i));
        lemma_nums_of_err(xs, i + 1, e);
    } else {
        assert(xs.take(i) =~= xs);
    }
}

proof fn lemma_blobs_of_err(xs: Seq<JsonV>, i: int, e: Seq<char>)
    requires
        0 <= i <= xs.len(),
        blobs_of(xs.take(i)) == Err::<Seq<Seq<u8>>, Seq<char>>(e),
    ensures
        blobs_of(xs) == Err::<Seq<Seq<u8>>, Seq<char>>(e),
    decreases xs.len() - i,
{
    if i < xs.len() {
        assert(xs.take(i + 1).drop_last() =~= xs.take(i));
        lemma_blobs_of_err(xs, i + 1, e);
    } else {
        assert(xs.take(i) =~= xs);
    }
}

// ---------------------------------------------------------------------------
// Reading: scalars
// ---------------------------------------------------------------------------

/// Whether a string is the given literal.
fn is_text(t: &String, lit: &str) -> (r: bool)
    ensures
        r == (t@ == lit@),
{
    *t == lit.to_owned()
}

/// A string value (see [`str_of`]).
fn read_str(v: &JsonValue, ctx: &str) -> (r: Result<String, String>)
    ensures
        match r {
            Ok(s) => str_of(v@, ctx@) == Ok::<Seq<char>, Seq<char>>(s@),
            Err(e) => str_of(v@, ctx@) == Err::<Seq<char>, Seq<char>>(e@),
        },
{
    match v {
        JsonValue::Str(s) => Ok(s.clone()),
        _ => Err(concat2(ctx, " must be a string")),
    }
}

/// A number given as a numeric string or a bare number (see [`decimal_of`]).
fn read_decimal(v: &JsonValue, ctx: &str) -> (r: Result<Number, String>)
    ensures
        match r {
            Ok(n) => decimal_of(v@, ctx@) == Ok::<Number, Seq<char>>(n) && n.wf(),
            Err(e) => decimal_of(v@, ctx@) == Err::<Number, Seq<char>>(e@),
        },
{
    let s = match v {
        JsonValue::Str(s) => s,
        JsonValue::Number(n) => n,
        _ => {
            return Err(concat2(ctx, " must be a numeric string"));
        },
    };
    match parse_number(s.as_str()) {
        Ok(n) => Ok(n),
        Err(e) => {
            let m = concat3("invalid ", ctx, " number ");
            let m = concat3(m.as_str(), s.as_str(), ": ");
            Err(concat2(m.as_str(), e.as_str()))
        },
    }
}

/// Bytes given as a base64 string (see [`blob_of`]).
fn read_blob(v: &JsonValue, ctx: &str) -> (r: Result<Vec<u8>, String>)
    ensures
        match r {
            Ok(b) => blob_of(v@, ctx@) == Ok::<Seq<u8>, Seq<char>>(b@),
            Err(e) => blob_of(v@, ctx@) == Err::<Seq<u8>, Seq<char>>(e@),
        },
{
    let s = read_str(v, ctx)?;
    match from_base64_str(s.as_str()) {
        Ok(b) => Ok(b),
        Err(e) => {
            let m = concat2(ctx, " must be base64: ");
            Err(concat2(m.as_str(), e.as_str()))
        },
    }
}

// ---------------------------------------------------------------------------
// Reading: attributes
// ---------------------------------------------------------------------------

/// The attribute a typed-JSON value stands for (see [`typed_attr`]). What it
/// returns is well-formed.
pub fn typed_attribute(v: &JsonValue) -> (r: Result<Attribute, String>)
    ensures
        attr_result(r) == typed_attr(v@),
        r matches Ok(a) ==> attr_wf(a@),
    decreases v,
{
    let ms = match v {
        JsonValue::Object(ms) => ms,
        _ => {
            return Err(copy_str("each attribute must be a `{\"<type>\": <value>}` object"));
        },
    };
    assert(json_members_view(ms@).len() == ms@.len());
    if ms.len() != 1 {
        return Err(copy_str("each attribute object must have exactly one type key"));
    }
    let t = &ms[0].0;
    let val = &ms[0].1;
    proof {
        assert(json_members_view(ms@).len() == ms@.len());
        assert(json_members_view(ms@)[0] == (t@, val@));
        assert(decreases_to!(*v => v->Object_0));
        assert(decreases_to!(*ms => ms@[0]));
        assert(decreases_to!(ms@[0] => ms@[0].1));
        assert(decreases_to!(*v => *val));
    }
    if is_text(t, "S") {
        match read_str(val, "S") {
            Ok(s) => Ok(Attribute::S(s)),
            Err(e) => Err(e),
        }
    } else if is_text(t, "N") {
        match read_decimal(val, "N") {
            Ok(n) => Ok(Attribute::N(n)),
            Err(e) => Err(e),
        }
    } else if is_text(t, "B") {
        match read_blob(val, "B") {
            Ok(b) => Ok(Attribute::B(b)),
            Err(e) => Err(e),
        }
    } else if is_text(t, "BOOL") {
        match val {
            JsonValue::Bool(b) => Ok(Attribute::BOOL(*b)),
            _ => Err(copy_str("BOOL must be a boolean")),
        }
    } else if is_text(t, "NULL") {
        Ok(Attribute::NULL)
    } else if is_text(t, "L") {
        match val {
            JsonValue::Array(xs) => {
                let ghost xv = json_list_view(xs@);
                let mut out: Vec<Attribute> = Vec::new();
                let mut i: usize = 0;
                assert(xv.take(0) =~= Seq::<JsonV>::empty());
                assert(list_view(out@) =~= Seq::<AttrV>::empty());
                assert(typed_attr(v@) == match typed_list(xv) {
                    Ok(vs) => Ok(AttrV::L(vs)),
                    Err(e) => Err::<AttrV, Seq<char>>(e),
                });
                while i < xs.len()
                    invariant
                        typed_attr(v@) == match typed_list(xv) {
                            Ok(vs) => Ok(AttrV::L(vs)),
                            Err(e) => Err::<AttrV, Seq<char>>(e),
                        },
                        *val is Array && val->Array_0 == *xs,
                        decreases_to!(*v => *val),
                        i <= xs.len(),
                        xv == json_list_view(xs@),
                        typed_list(xv.take(i as int)) == Ok::<Seq<AttrV>, Seq<char>>(
                            list_view(out@),
                        ),
                        forall|k: int| 0 <= k < out@.len() ==> attr_wf(#[trigger] out@[k]@),
                    out@.len() == i,
                        out@.len() == i,
                    decreases xs.len() - i,
                {
                    proof {
                        assert(decreases_to!(*val => val->Array_0));
                        assert(decreases_to!(*xs => xs@[i as int]));
                        assert(json_list_view(xs@).len() == xs@.len());
                        let t = xv.take(i + 1);
                        assert(t.subrange(0, t.len() - 1) =~= xv.take(i as int));
                        assert(t[t.len() - 1] == xs@[i as int]@);
                    }
                    match typed_attribute(&xs[i]) {
                        Ok(a) => {
                            let ghost before = list_view(out@);
                            assert(before.len() == out@.len());
                            out.push(a);
                            assert(list_view(out@).len() == out@.len());
                            assert(list_view(out@) =~= before.push(out@[i as int]@));
                        },
                        Err(e) => {
                            proof {
                                lemma_typed_list_err(xv, i + 1, e@);
                            }
                            return Err(e);
                        },
                    }
                    i += 1;
                }
                assert(xv.take(xs.len() as int) =~= xv);
                assert(list_view(out@).len() == out@.len());
                assert(forall|k: int| 0 <= k < out@.len() ==> #[trigger] list_view(out@)[k] == out@[k]@);
                let res = Attribute::L(out);
                assert(attr_wf(res@));
                Ok(res)
            },
            _ => Err(copy_str("L must be an array")),
        }
    } else if is_text(t, "M") {
        match val {
            JsonValue::Object(es) => {
                proof {
                    assert(decreases_to!(*val => val->Object_0));
                }
                match typed_members(es) {
                    Ok(m) => Ok(Attribute::M(m)),
                    Err(e) => Err(e),
                }
            },
            _ => Err(copy_str("M must be an object")),
        }
    } else if is_text(t, "SS") {
        match val {
            JsonValue::Array(xs) => {
                let ghost xv = json_list_view(xs@);
                let ghost mut items: Seq<Seq<char>> = Seq::empty();
                let mut set: Vec<String> = Vec::new();
                let mut i: usize = 0;
                assert(xv.take(0) =~= Seq::<JsonV>::empty());
                assert(strs_view(set@) =~= Seq::<Seq<char>>::empty());
                assert(typed_attr(v@) == match strs_of(xv) {
                    Ok(ss) => Ok(AttrV::SS(strs_from(ss))),
                    Err(e) => Err::<AttrV, Seq<char>>(e),
                });
                while i < xs.len()
                    invariant
                        typed_attr(v@) == match strs_of(xv) {
                            Ok(ss) => Ok(AttrV::SS(strs_from(ss))),
                            Err(e) => Err::<AttrV, Seq<char>>(e),
                        },
                        i <= xs.len(),
                        xv == json_list_view(xs@),
                        strs_of(xv.take(i as int)) == Ok::<Seq<Seq<char>>, Seq<char>>(items),
                        strs_view(set@) == strs_from(items),
                    decreases xs.len() - i,
                {
                    proof {
                        assert(json_list_view(xs@).len() == xs@.len());
                        let t = xv.take(i + 1);
                        assert(t.drop_last() =~= xv.take(i as int));
                        assert(t.last() == xs@[i as int]@);
                    }
                    match read_str(&xs[i], "SS element") {
                        Ok(s) => {
                            let ghost prev = items;
                            proof {
                                items = items.push(s@);
                                assert(items.drop_last() =~= prev);
                            }
                            insert_string(&mut set, s);
                        },
                        Err(e) => {
                            proof {
                                lemma_strs_of_err(xv, i + 1, e@);
                            }
                            return Err(e);
                        },
                    }
                    i += 1;
                }
                assert(xv.take(xs.len() as int) =~= xv);
                proof {
                    crate::sets::lemma_strs_from_sorted(items);
                }
                Ok(Attribute::SS(set))
            },
            _ => Err(copy_str("SS must be an array")),
        }
    } else if is_text(t, "NS") {
        match val {
            JsonValue::Array(xs) => {
                let ghost xv = json_list_view(xs@);
                let ghost mut items: Seq<Number> = Seq::empty();
                let mut set: Vec<Number> = Vec::new();
                let mut i: usize = 0;
                assert(xv.take(0) =~= Seq::<JsonV>::empty());
                assert(set@ =~= Seq::<Number>::empty());
                assert(typed_attr(v@) == match nums_of(xv) {
                    Ok(ns) => Ok(AttrV::NS(nums_from(ns))),
                    Err(e) => Err::<AttrV, Seq<char>>(e),
                });
                while i < xs.len()
                    invariant
                        typed_attr(v@) == match nums_of(xv) {
                            Ok(ns) => Ok(AttrV::NS(nums_from(ns))),
                            Err(e) => Err::<AttrV, Seq<char>>(e),
                        },
                        i <= xs.len(),
                        xv == json_list_view(xs@),
                        nums_of(xv.take(i as int)) == Ok::<Seq<Number>, Seq<char>>(items),
                        set@ == nums_from(items),
                        numbers_sorted(set@),
                        forall|k: int| 0 <= k < items.len() ==> (#[trigger] items[k]).wf(),
                    decreases xs.len() - i,
                {
                    proof {
                        assert(json_list_view(xs@).len() == xs@.len());
                        let t = xv.take(i + 1);
                        assert(t.drop_last() =~= xv.take(i as int));
                        assert(t.last() == xs@[i as int]@);
                    }
                    match read_decimal(&xs[i], "NS element") {
                        Ok(n) => {
                            let ghost prev = items;
                            proof {
                                items = items.push(n);
                                assert(items.drop_last() =~= prev);
                                lemma_nums_insert_sorted(set@, n);
                            }
                            insert_number(&mut set, n);
                        },
                        Err(e) => {
                            proof {
                                lemma_nums_of_err(xv, i + 1, e@);
                            }
                            return Err(e);
                        },
                    }
                    i += 1;
                }
                assert(xv.take(xs.len() as int) =~= xv);
                Ok(Attribute::NS(set))
            },
            _ => Err(copy_str("NS must be an array")),
        }
    } else if is_text(t, "BS") {
        match val {
            JsonValue::Array(xs) => {
                let ghost xv = json_list_view(xs@);
                let ghost mut items: Seq<Seq<u8>> = Seq::empty();
                let mut set: Vec<Vec<u8>> = Vec::new();
                let mut i: usize = 0;
                assert(xv.take(0) =~= Seq::<JsonV>::empty());
                assert(blobs_view(set@) =~= Seq::<Seq<u8>>::empty());
                assert(typed_attr(v@) == match blobs_of(xv) {
                    Ok(bs) => Ok(AttrV::BS(blobs_from(bs))),
                    Err(e) => Err::<AttrV, Seq<char>>(e),
                });
                while i < xs.len()
                    invariant
                        typed_attr(v@) == match blobs_of(xv) {
                            Ok(bs) => Ok(AttrV::BS(blobs_from(bs))),
                            Err(e) => Err::<AttrV, Seq<char>>(e),
                        },
                        i <= xs.len(),
                        xv == json_list_view(xs@),
                        blobs_of(xv.take(i as int)) == Ok::<Seq<Seq<u8>>, Seq<char>>(items),
                        blobs_view(set@) == blobs_from(items),
                    decreases xs.len() - i,
                {
                    proof {
                        assert(json_list_view(xs@).len() == xs@.len());
                        let t = xv.take(i + 1);
                        assert(t.drop_last() =~= xv.take(i as int));
                        assert(t.last() == xs@[i as int]@);
                    }
                    match read_blob(&xs[i], "BS element") {
                        Ok(b) => {
                            let ghost prev = items;
                            proof {
                                items = items.push(b@);
                                assert(items.drop_last() =~= prev);
                            }
                            insert_bytes(&mut set, b);
                        },
                        Err(e) => {
                            proof {
                                lemma_blobs_of_err(xv, i + 1, e@);
                            }
                            return Err(e);
                        },
                    }
                    i += 1;
                }
                assert(xv.take(xs.len() as int) =~= xv);
                proof {
                    crate::sets::lemma_blobs_from_sorted(items);
                }
                Ok(Attribute::BS(set))
            },
            _ => Err(copy_str("BS must be an array")),
        }
    } else {
        Err(concat2("unknown attribute type: ", t.as_str()))
    }
}

/// The attribute a plain-JSON value stands for (see [`plain_attr`]). What it
/// returns is well-formed.
pub fn plain_attribute(v: &JsonValue) -> (r: Result<Attribute, String>)
    ensures
        attr_result(r) == plain_attr(v@),
        r matches Ok(a) ==> attr_wf(a@),
    decreases v,
{
    match v {
        JsonValue::Null => Ok(Attribute::NULL),
        JsonValue::Bool(b) => Ok(Attribute::BOOL(*b)),
        JsonValue::Str(s) => Ok(Attribute::S(s.clone())),
        JsonValue::Number(n) => match parse_number(n.as_str()) {
            Ok(x) => Ok(Attribute::N(x)),
            Err(e) => {
                let m = concat3("invalid number ", n.as_str(), ": ");
                Err(concat2(m.as_str(), e.as_str()))
            },
        },
        JsonValue::Array(xs) => {
            let ghost xv = json_list_view(xs@);
            let mut out: Vec<Attribute> = Vec::new();
            let mut i: usize = 0;
            assert(xv.take(0) =~= Seq::<JsonV>::empty());
            assert(list_view(out@) =~= Seq::<AttrV>::empty());
            while i < xs.len()
                invariant
                    *v is Array && v->Array_0 == *xs,
                    i <= xs.len(),
                    xv == json_list_view(xs@),
                    plain_list(xv.take(i as int)) == Ok::<Seq<AttrV>, Seq<char>>(list_view(out@)),
                    forall|k: int| 0 <= k < out@.len() ==> attr_wf(#[trigger] out@[k]@),
                    out@.len() == i,
                decreases xs.len() - i,
            {
                proof {
                    assert(decreases_to!(*v => v->Array_0));
                    assert(decreases_to!(*xs => xs@[i as int]));
                    assert(json_list_view(xs@).len() == xs@.len());
                    let t = xv.take(i + 1);
                    assert(t.subrange(0, t.len() - 1) =~= xv.take(i as int));
                    assert(t[t.len() - 1] == xs@[i as int]@);
                }
                match plain_attribute(&xs[i]) {
                    Ok(a) => {
                        let ghost before = list_view(out@);
                        assert(before.len() == out@.len());
                        out.push(a);
                        assert(list_view(out@).len() == out@.len());
                        assert(list_view(out@) =~= before.push(out@[i as int]@));
                    },
                    Err(e) => {
                        proof {
                            lemma_plain_list_err(xv, i + 1, e@);
                        }
                        return Err(e);
                    },
                }
                i += 1;
            }
            assert(xv.take(xs.len() as int) =~= xv);
            assert(list_view(out@).len() == out@.len());
            assert(forall|k: int| 0 <= k < out@.len() ==> #[trigger] list_view(out@)[k] == out@[k]@);
            let res = Attribute::L(out);
            assert(attr_wf(res@));
            Ok(res)
        },
        JsonValue::Object(es) => {
            proof {
                assert(decreases_to!(*v => v->Object_0));
            }
            match plain_members(es) {
                Ok(m) => Ok(Attribute::M(m)),
                Err(e) => Err(e),
            }
        },
    }
}

/// The map of the members of a typed-JSON object (see [`typed_map`]). What
/// it returns is well-formed.
pub fn typed_members(es: &Vec<(String, JsonValue)>) -> (r: Result<AttrMap, String>)
    ensures
        match r {
            Ok(m) => typed_map(json_members_view(es@)) == Ok::<Seq<(Seq<char>, AttrV)>, Seq<char>>(m@)
                && entries_wf(m@),
            Err(e) => typed_map(json_members_view(es@)) == Err::<Seq<(Seq<char>, AttrV)>, Seq<char>>(e@),
        },
    decreases es,
{
    let ghost ev = json_members_view(es@);
    let mut out = AttrMap::new();
    let mut i: usize = 0;
    assert(ev.take(0) =~= Seq::<(Seq<char>, JsonV)>::empty());
    while i < es.len()
        invariant
            i <= es.len(),
            ev == json_members_view(es@),
            typed_map(ev.take(i as int)) == Ok::<Seq<(Seq<char>, AttrV)>, Seq<char>>(out@),
            entries_wf(out@),
        decreases es.len() - i,
    {
        proof {
            assert(decreases_to!(*es => es@[i as int]));
            assert(decreases_to!(es@[i as int] => es@[i as int].1));
            let t = ev.take(i + 1);
            assert(t.subrange(0, t.len() - 1) =~= ev.take(i as int));
            assert(ev.len() == es@.len());
            assert(ev[i as int] == (es@[i as int].0@, es@[i as int].1@));
            assert(t[t.len() - 1] == ev[i as int]);
        }
        match typed_attribute(&es[i].1) {
            Ok(a) => {
                out.insert(es[i].0.clone(), a);
            },
            Err(e) => {
                proof {
                    lemma_typed_map_err(ev, i + 1, e@);
                }
                return Err(e);
            },
        }
        i += 1;
    }
    assert(ev.take(es.len() as int) =~= ev);
    Ok(out)
}

/// The map of the members of a plain-JSON object (see [`plain_map`]). What
/// it returns is well-formed.
pub fn plain_members(es: &Vec<(String, JsonValue)>) -> (r: Result<AttrMap, String>)
    ensures
        match r {
            Ok(m) => plain_map(json_members_view(es@)) == Ok::<Seq<(Seq<char>, AttrV)>, Seq<char>>(m@)
                && entries_wf(m@),
            Err(e) => plain_map(json_members_view(es@)) == Err::<Seq<(Seq<char>, AttrV)>, Seq<char>>(e@),
        },
    decreases es,
{
    let ghost ev = json_members_view(es@);
    let mut out = AttrMap::new();
    let mut i: usize = 0;
    assert(ev.take(0) =~= Seq::<(Seq<char>, JsonV)>::empty());
    while i < es.len()
        invariant
            i <= es.len(),
            ev == json_members_view(es@),
            plain_map(ev.take(i as int)) == Ok::<Seq<(Seq<char>, AttrV)>, Seq<char>>(out@),
            entries_wf(out@),
        decreases es.len() - i,
    {
        proof {
            assert(decreases_to!(*es => es@[i as int]));
            assert(decreases_to!(es@[i as int] => es@[i as int].1));
            let t = ev.take(i + 1);
            assert(t.subrange(0, t.len() - 1) =~= ev.take(i as int));
            assert(ev.len() == es@.len());
            assert(ev[i as int] == (es@[i as int].0@, es@[i as int].1@));
            assert(t[t.len() - 1] == ev[i as int]);
        }
        match plain_attribute(&es[i].1) {
            Ok(a) => {
                out.insert(es[i].0.clone(), a);
            },
            Err(e) => {
                proof {
                    lemma_plain_map_err(ev, i + 1, e@);
                }
                return Err(e);
            },
        }
        i += 1;
    }
    assert(ev.take(es.len() as int) =~= ev);
    Ok(out)
}

/// Parses the typed-JSON form of an item (e.g. `{"age":{"N":"30"}}`) back
/// into an item, losing nothing: N stays apart from S, and sets and binaries
/// are kept (see [`item_typed`]).
pub fn item_from_typed_json(s: &str) -> (r: Result<Item, String>)
    ensures
        item_result(r) == item_typed(s@),
        r matches Ok(it) ==> entries_wf(it@),
{
    let v = match parse_json(s) {
        Ok(v) => v,
        Err(e) => {
            return Err(concat2("invalid JSON: ", e.as_str()));
        },
    };
    match &v {
        JsonValue::Object(ms) => match typed_members(ms) {
            Ok(m) => Ok(Item { attributes: m }),
            Err(e) => Err(e),
        },
        _ => Err(copy_str("top level must be a JSON object")),
    }
}

/// Parses the plain-JSON form of an item (e.g. `{"age":30,"name":"x"}`),
/// inferring DynamoDB types (see [`item_plain`]).
pub fn item_from_plain_json(s: &str) -> (r: Result<Item, String>)
    ensures
        item_result(r) == item_plain(s@),
        r matches Ok(it) ==> entries_wf(it@) && item_plain_convertible(it@),
{
    proof {
        lemma_plain_parse_convertible(s@);
    }
    let v = match parse_json(s) {
        Ok(v) => v,
        Err(e) => {
            return Err(concat2("invalid JSON: ", e.as_str()));
        },
    };
    match &v {
        JsonValue::Object(ms) => match plain_members(ms) {
            Ok(m) => Ok(Item { attributes: m }),
            Err(e) => Err(e),
        },
        _ => Err(copy_str("top level must be a JSON object")),
    }
}

// ---------------------------------------------------------------------------
// Plain convertibility
// ---------------------------------------------------------------------------

/// Whether plain JSON can express an attribute: it has no binary and no set,
/// at any depth.
pub open spec fn plain_convertible(a: AttrV) -> bool
    decreases a,
{
    match a {
        AttrV::B(_) => false,
        AttrV::SS(_) => false,
        AttrV::NS(_) => false,
        AttrV::BS(_) => false,
        AttrV::L(v) => all_plain(v),
        AttrV::M(es) => item_plain_convertible(es),
        _ => true,
    }
}

/// Whether plain JSON can express every attribute of a list.
pub open spec fn all_plain(v: Seq<AttrV>) -> bool
    decreases v,
{
    if v.len() == 0 {
        true
    } else {
        all_plain(v.subrange(0, v.len() - 1)) && plain_convertible(v[v.len() - 1])
    }
}

/// Whether plain JSON can express every attribute of an item (or a map).
pub open spec fn item_plain_convertible(es: Seq<(Seq<char>, AttrV)>) -> bool
    decreases es,
{
    if es.len() == 0 {
        true
    } else {
        item_plain_convertible(es.subrange(0, es.len() - 1)) && plain_convertible(
            es[es.len() - 1].1,
        )
    }
}

/// Whether plain JSON can express an attribute (see [`plain_convertible`]).
pub fn attribute_plain_convertible(attr: &Attribute) -> (r: bool)
    ensures
        r == plain_convertible(attr@),
    decreases attr,
{
    match attr {
        Attribute::B(_) => false,
        Attribute::SS(_) => false,
        Attribute::NS(_) => false,
        Attribute::BS(_) => false,
        Attribute::L(v) => {
            let ghost lv = list_view(v@);
            let mut i: usize = 0;
            let mut all = true;
            assert(lv.take(0) =~= Seq::<AttrV>::empty());
            while i < v.len()
                invariant
                    *attr is L && attr->L_0 == *v,
                    lv == list_view(v@),
                    lv.len() == v@.len(),
                    i <= v.len(),
                    all == all_plain(lv.take(i as int)),
                decreases v.len() - i,
            {
                proof {
                    assert(decreases_to!(*v => v@[i as int]));
                    assert(decreases_to!(*attr => attr->L_0));
                    let t = lv.take(i + 1);
                    assert(t.subrange(0, t.len() - 1) =~= lv.take(i as int));
                    assert(t[t.len() - 1] == v@[i as int]@);
                }
                let here = attribute_plain_convertible(&v[i]);
                all = all && here;
                i += 1;
            }
            assert(lv.take(v.len() as int) =~= lv);
            all
        },
        Attribute::M(m) => {
            proof {
                assert(decreases_to!(*attr => attr->M_0));
            }
            entries_plain_convertible(m)
        },
        _ => true,
    }
}

/// Whether plain JSON can express every attribute of a map.
fn entries_plain_convertible(m: &AttrMap) -> (r: bool)
    ensures
        r == item_plain_convertible(m@),
    decreases m,
{
    let ghost mv = m@;
    let mut i: usize = 0;
    let mut all = true;
    assert(mv.take(0) =~= Seq::<(Seq<char>, AttrV)>::empty());
    while i < m.entries.len()
        invariant
            mv == m@,
            mv.len() == m.entries@.len(),
            i <= m.entries.len(),
            all == item_plain_convertible(mv.take(i as int)),
        decreases m.entries.len() - i,
    {
        proof {
            assert(decreases_to!(*m => m.entries));
            assert(decreases_to!(m.entries => m.entries@[i as int]));
            assert(decreases_to!(m.entries@[i as int] => m.entries@[i as int].1));
            let t = mv.take(i + 1);
            assert(t.subrange(0, t.len() - 1) =~= mv.take(i as int));
            assert(t[t.len() - 1].1 == m.entries@[i as int].1@);
        }
        let here = attribute_plain_convertible(&m.entries[i].1);
        all = all && here;
        i += 1;
    }
    assert(mv.take(m.entries.len() as int) =~= mv);
    all
}

/// Whether an item can be written as plain JSON without loss: plain JSON has
/// no way to express string, number or binary sets, nor binaries.
pub fn is_plain_convertible(item: &Item) -> (r: bool)
    ensures
        r == item_plain_convertible(item@),
{
    entries_plain_convertible(&item.attributes)
}

/// `item_plain_convertible` holds exactly when every entry is convertible.
proof fn lemma_item_plain_convertible_all(es: Seq<(Seq<char>, AttrV)>)
    ensures
        item_plain_convertible(es) <==> forall|i: int| 0 <= i < es.len() ==> plain_convertible(#[trigger] es[i].1),
    decreases es.len(),
{
    if es.len() > 0 {
        let init = es.subrange(0, es.len() - 1);
        lemma_item_plain_convertible_all(init);
        assert forall|i: int| 0 <= i < init.len() implies init[i] == es[i] by {}
        if forall|i: int| 0 <= i < es.len() ==> plain_convertible(#[trigger] es[i].1) {
            assert forall|i: int| 0 <= i < init.len() implies plain_convertible(#[trigger] init[i].1) by {
                assert(init[i] == es[i]);
            }
        }
        if item_plain_convertible(es) {
            assert forall|i: int| 0 <= i < es.len() implies plain_convertible(#[trigger] es[i].1) by {
                if i < es.len() - 1 {
                    assert(init[i] == es[i]);
                }
            }
        }
    }
}

/// Storing a convertible attribute in a map of convertible entries keeps
/// every entry convertible.
proof fn lemma_map_insert_plain(es: Seq<(Seq<char>, AttrV)>, k: Seq<char>, v: AttrV)
    requires
        forall|i: int| 0 <= i < es.len() ==> plain_convertible(#[trigger] es[i].1),
        plain_convertible(v),
    ensures
        forall|i: int|
            0 <= i < map_insert(es, k, v).len() ==> plain_convertible(#[trigger] map_insert(es, k, v)[i].1),
    decreases es.len(),
{
    let r = map_insert(es, k, v);
    if es.len() == 0 {
    } else if es[0].0 == k {
        assert forall|i: int| 0 <= i < r.len() implies plain_convertible(#[trigger] r[i].1) by {
            if i > 0 {
                assert(r[i] == es[i]);
            }
        }
    } else if crate::text::chars_lt(k, es[0].0) {
        assert forall|i: int| 0 <= i < r.len() implies plain_convertible(#[trigger] r[i].1) by {
            if i > 0 {
                assert(r[i] == es[i - 1]);
            }
        }
    } else {
        let rest = es.drop_first();
        assert forall|i: int| 0 <= i < rest.len() implies plain_convertible(#[trigger] rest[i].1) by {
            assert(rest[i] == es[i + 1]);
        }
        lemma_map_insert_plain(rest, k, v);
        let t = map_insert(rest, k, v);
        assert(r == seq![es[0]] + t);
        assert forall|i: int| 0 <= i < r.len() implies plain_convertible(#[trigger] r[i].1) by {
            if i > 0 {
                assert(r[i] == t[i - 1]);
            } else {
                assert(r[0] == es[0]);
            }
        }
    }
}

/// An attribute read from plain JSON is convertible back to plain JSON.
proof fn lemma_plain_attr_convertible(v: JsonV)
    ensures
        plain_attr(v) matches Ok(a) ==> plain_convertible(a),
    decreases v, 0int,
{
    match v {
        JsonV::Array(xs) => {
            assert(decreases_to!(v => xs));
            lemma_plain_list_convertible(xs);
        },
        JsonV::Object(es) => {
            assert(decreases_to!(v => es));
            lemma_plain_map_convertible(es);
        },
        _ => {},
    }
}

/// A list read from plain JSON holds only convertible attributes.
proof fn lemma_plain_list_convertible(xs: Seq<JsonV>)
    ensures
        plain_list(xs) matches Ok(vs) ==> all_plain(vs),
    decreases xs, 1int,
{
    if xs.len() > 0 {
        let init = xs.subrange(0, xs.len() - 1);
        assert(decreases_to!(xs => xs[xs.len() - 1]));
        lemma_plain_list_convertible(init);
        lemma_plain_attr_convertible(xs[xs.len() - 1]);
        if let Ok(vs) = plain_list(xs) {
            let prev = plain_list(init)->Ok_0;
            assert(vs == prev.push(plain_attr(xs[xs.len() - 1])->Ok_0));
            assert(vs.subrange(0, vs.len() - 1) =~= prev);
        }
    }
}

/// A map read from plain JSON holds only convertible attributes.
proof fn lemma_plain_map_convertible(es: Seq<(Seq<char>, JsonV)>)
    ensures
        plain_map(es) matches Ok(m) ==> item_plain_convertible(m),
    decreases es, 1int,
{
    if es.len() > 0 {
        let init = es.subrange(0, es.len() - 1);
        assert(decreases_to!(es => es[es.len() - 1]));
        assert(decreases_to!(es[es.len() - 1] => es[es.len() - 1].1));
        lemma_plain_map_convertible(init);
        lemma_plain_attr_convertible(es[es.len() - 1].1);
        if let Ok(m) = plain_map(es) {
            let prev = plain_map(init)->Ok_0;
            lemma_item_plain_convertible_all(prev);
            lemma_map_insert_plain(prev, es[es.len() - 1].0, plain_attr(es[es.len() - 1].1)->Ok_0);
            lemma_item_plain_convertible_all(m);
        }
    }
}

/// Every item read from plain JSON can be written back as plain JSON: plain
/// JSON never yields sets or binaries.
pub proof fn lemma_plain_parse_convertible(text: Seq<char>)
    ensures
        item_plain(text) matches Ok(es) ==> item_plain_convertible(es),
{
    if let Ok(JsonV::Object(ms)) = json_tree_of(text) {
        lemma_plain_map_convertible(ms);
    }
}

// ---------------------------------------------------------------------------
// New items and key checks
// ---------------------------------------------------------------------------

/// The empty string attribute.
pub open spec fn empty_s() -> AttrV {
    AttrV::S(Seq::empty())
}

/// The item a new item starts from: each key attribute of the schema, as an
/// empty string.
pub open spec fn skeleton(schema: KeySchemaType) -> Seq<(Seq<char>, AttrV)> {
    match schema {
        KeySchemaType::Hash(pk) => map_insert(Seq::empty(), pk@, empty_s()),
        KeySchemaType::HashRange(pk, sk) => map_insert(
            map_insert(Seq::empty(), pk@, empty_s()),
            sk@,
            empty_s(),
        ),
    }
}

/// Builds the item a new item starts from (see [`skeleton`]), e.g.
/// `{"PK": {"S": ""}, "SK": {"S": ""}}` in typed JSON: it has exactly the
/// key attributes, each an empty string.
pub fn new_item_skeleton(schema: &KeySchemaType) -> (r: Item)
    ensures
        r@ == skeleton(*schema),
        entries_wf(r@),
        forall|k: Seq<char>| has_key(r@, k) <==> key_names(*schema).contains(k),
        forall|k: Seq<char>|
            key_names(*schema).contains(k) ==> lookup(r@, k) == Some(empty_s()),
{
    let mut attributes = AttrMap::new();
    proof {
        assert(keys_of(attributes@) =~= Seq::<Seq<char>>::empty());
    }
    match schema {
        KeySchemaType::Hash(pk) => {
            attributes.insert(pk.clone(), Attribute::S(String::new()));
            proof {
                let names = key_names(*schema);
                assert(names[0] == pk@);
                assert forall|k: Seq<char>| has_key(attributes@, k) <==> names.contains(k) by {
                    if names.contains(k) {
                        let j = choose|j: int| 0 <= j < names.len() && names[j] == k;
                        assert(j == 0);
                    }
                }
            }
        },
        KeySchemaType::HashRange(pk, sk) => {
            attributes.insert(pk.clone(), Attribute::S(String::new()));
            attributes.insert(sk.clone(), Attribute::S(String::new()));
            proof {
                let names = key_names(*schema);
                assert(names[0] == pk@ && names[1] == sk@);
                assert forall|k: Seq<char>| has_key(attributes@, k) <==> names.contains(k) by {
                    if names.contains(k) {
                        let j = choose|j: int| 0 <= j < names.len() && names[j] == k;
                        assert(j == 0 || j == 1);
                    }
                }
            }
        },
    }
    Item { attributes }
}

/// The key attributes among `names` that an item lacks, in the order of
/// `names`.
pub open spec fn missing_keys(es: Seq<(Seq<char>, AttrV)>, names: Seq<Seq<char>>) -> Seq<
    Seq<char>,
>
    decreases names.len(),
{
    if names.len() == 0 {
        Seq::empty()
    } else {
        let rest = missing_keys(es, names.drop_last());
        if has_key(es, names.last()) {
            rest
        } else {
            rest.push(names.last())
        }
    }
}

/// Texts joined by a separator.
pub open spec fn joined(xs: Seq<Seq<char>>, sep: Seq<char>) -> Seq<char>
    decreases xs.len(),
{
    if xs.len() == 0 {
        Seq::empty()
    } else if xs.len() == 1 {
        xs[0]
    } else {
        joined(xs.drop_last(), sep) + sep + xs.last()
    }
}

/// Confirms that an item carries the key attributes of a schema, as a put
/// needs; otherwise the error names the missing ones, partition key first:
/// `missing key attribute(s): PK, SK`.
pub fn validate_has_keys(item: &Item, schema: &KeySchemaType) -> (r: Result<(), String>)
    ensures
        r is Ok <==> missing_keys(item@, key_names(*schema)).len() == 0,
        r matches Err(e) ==> e@ == "missing key attribute(s): "@ + joined(
            missing_keys(item@, key_names(*schema)),
            ", "@,
        ),
{
    let ghost es = item@;
    let ghost names = key_names(*schema);
    match schema {
        KeySchemaType::Hash(pk) => {
            let has_pk = item.attributes.contains_key(pk.as_str());
            proof {
                assert(names.drop_last() =~= Seq::<Seq<char>>::empty());
                assert(names.last() == pk@);
                reveal_with_fuel(missing_keys, 2);
            }
            if has_pk {
                Ok(())
            } else {
                proof {
                    assert(missing_keys(es, names) =~= seq![pk@]);
                }
                Err(concat2("missing key attribute(s): ", pk.as_str()))
            }
        },
        KeySchemaType::HashRange(pk, sk) => {
            let has_pk = item.attributes.contains_key(pk.as_str());
            let has_sk = item.attributes.contains_key(sk.as_str());
            let ghost first = names.drop_last();
            proof {
                assert(first =~= seq![pk@]);
                assert(first.drop_last() =~= Seq::<Seq<char>>::empty());
                assert(first.last() == pk@);
                assert(names.last() == sk@);
                reveal_with_fuel(missing_keys, 3);
            }
            if has_pk && has_sk {
                Ok(())
            } else if has_sk {
                proof {
                    assert(missing_keys(es, names) =~= seq![pk@]);
                }
                Err(concat2("missing key attribute(s): ", pk.as_str()))
            } else if has_pk {
                proof {
                    assert(missing_keys(es, names) =~= seq![sk@]);
                }
                Err(concat2("missing key attribute(s): ", sk.as_str()))
            } else {
                proof {
                    let m = missing_keys(es, names);
                    assert(m =~= seq![pk@, sk@]);
                    assert(m.drop_last() =~= seq![pk@]);
                    reveal_with_fuel(joined, 2);
                    assert(joined(m, ", "@) =~= pk@ + ", "@ + sk@);
                }
                let mut e = concat3("missing key attribute(s): ", pk.as_str(), ", ");
                e.append(sk.as_str());
                proof {
                    let m = missing_keys(es, names);
                    assert(e@ =~= "missing key attribute(s): "@ + joined(m, ", "@));
                }
                Err(e)
            }
        },
    }
}

/// A new item passes the key check of the schema it was made for.
pub proof fn lemma_skeleton_has_keys(schema: KeySchemaType)
    ensures
        missing_keys(skeleton(schema), key_names(schema)).len() == 0,
{
    let e = Seq::<(Seq<char>, AttrV)>::empty();
    assert(keys_of(e) =~= Seq::<Seq<char>>::empty());
    let names = key_names(schema);
    match schema {
        KeySchemaType::Hash(pk) => {
            lemma_map_insert(e, pk@, empty_s());
            assert(names.drop_last() =~= Seq::<Seq<char>>::empty());
            reveal_with_fuel(missing_keys, 2);
        },
        KeySchemaType::HashRange(pk, sk) => {
            let m1 = map_insert(e, pk@, empty_s());
            lemma_map_insert(e, pk@, empty_s());
            lemma_map_insert(m1, sk@, empty_s());
            let first = names.drop_last();
            assert(first =~= seq![pk@]);
            assert(first.drop_last() =~= Seq::<Seq<char>>::empty());
            reveal_with_fuel(missing_keys, 3);
        },
    }
}

} // verus!
