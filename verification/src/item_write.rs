//! Items written as JSON, in the two forms [`crate::item_json`] reads:
//!
//! - typed JSON, each value a one-member object naming its type, e.g.
//!   `{"age": {"N": "30"}}`; numbers are written as strings, binaries in
//!   base64, `NULL` as `{"NULL": true}`;
//! - plain JSON, e.g. `{"age": 30}`, whose numbers are JSON numbers; sets are
//!   written as arrays and binaries as base64 strings, so they do not read
//!   back as what they were (see [`crate::item_json::is_plain_convertible`]).
//!
//! An item's key attributes come first, partition key then sort key, then the
//! other attributes in ascending order of name.
use vstd::prelude::*;

use crate::client::key_names;
use crate::data::{
    AttrMap, AttrV, Attribute, Item, KeySchemaType, attr_wf, blobs_view, entries_wf,
    lemma_attr_wf_list, lemma_attr_wf_map, list_view, lookup, pairs_view,
};
use crate::json::{pretty, to_pretty_json};
use crate::json_view::{JsonV, JsonValue, json_list_view, json_members_view};
use crate::number::{Number, decimal_text, number_text};
use crate::text::{copy_str, strs_view};
use crate::util::{base64_encode, to_base64_str};

verus! {

broadcast use {
    crate::json_view::lemma_json_list_view,
    crate::json_view::lemma_json_members_view,
    crate::data_view::lemma_list_view,
    crate::data_view::lemma_pairs_view,
};

// ---------------------------------------------------------------------------
// Specifications
// ---------------------------------------------------------------------------

/// A one-member object: the type tag and the value.
pub open spec fn tagged(t: Seq<char>, v: JsonV) -> JsonV {
    JsonV::Object(seq![(t, v)])
}

/// Strings as JSON strings.
pub open spec fn str_trees(ss: Seq<Seq<char>>) -> Seq<JsonV> {
    ss.map_values(|s: Seq<char>| JsonV::Str(s))
}

/// Numbers as JSON strings holding their decimal text.
pub open spec fn num_strs(ns: Seq<Number>) -> Seq<JsonV> {
    ns.map_values(|n: Number| JsonV::Str(decimal_text(n)))
}

/// Numbers as JSON numbers.
pub open spec fn num_trees(ns: Seq<Number>) -> Seq<JsonV> {
    ns.map_values(|n: Number| JsonV::Number(decimal_text(n)))
}

/// Byte strings as JSON strings holding their base64 text.
pub open spec fn blob_trees(bs: Seq<Seq<u8>>) -> Seq<JsonV> {
    bs.map_values(|b: Seq<u8>| JsonV::Str(base64_encode(b)))
}

/// The typed-JSON form of an attribute.
pub open spec fn typed_tree(a: AttrV) -> JsonV
    decreases a,
{
    match a {
        AttrV::S(s) => tagged("S"@, JsonV::Str(s)),
        AttrV::N(n) => tagged("N"@, JsonV::Str(decimal_text(n))),
        AttrV::B(b) => tagged("B"@, JsonV::Str(base64_encode(b))),
        AttrV::BOOL(b) => tagged("BOOL"@, JsonV::Bool(b)),
        AttrV::NULL => tagged("NULL"@, JsonV::Bool(true)),
        AttrV::L(v) => tagged("L"@, JsonV::Array(typed_trees(v))),
        AttrV::M(es) => tagged("M"@, JsonV::Object(typed_entries(es))),
        AttrV::SS(ss) => tagged("SS"@, JsonV::Array(str_trees(ss))),
        AttrV::NS(ns) => tagged("NS"@, JsonV::Array(num_strs(ns))),
        AttrV::BS(bs) => tagged("BS"@, JsonV::Array(blob_trees(bs))),
    }
}

/// The typed-JSON forms of a list of attributes.
pub open spec fn typed_trees(v: Seq<AttrV>) -> Seq<JsonV>
    decreases v,
{
    if v.len() == 0 {
        Seq::empty()
    } else {
        typed_trees(v.subrange(0, v.len() - 1)).push(typed_tree(v[v.len() - 1]))
    }
}

/// The typed-JSON members for named attributes, in their order.
pub open spec fn typed_entries(es: Seq<(Seq<char>, AttrV)>) -> Seq<(Seq<char>, JsonV)>
    decreases es,
{
    if es.len() == 0 {
        Seq::empty()
    } else {
        typed_entries(es.subrange(0, es.len() - 1)).push(
            (es[es.len() - 1].0, typed_tree(es[es.len() - 1].1)),
        )
    }
}

/// The plain-JSON form of an attribute.
pub open spec fn plain_tree(a: AttrV) -> JsonV
    decreases a,
{
    match a {
        AttrV::S(s) => JsonV::Str(s),
        AttrV::N(n) => JsonV::Number(decimal_text(n)),
        AttrV::B(b) => JsonV::Str(base64_encode(b)),
        AttrV::BOOL(b) => JsonV::Bool(b),
        AttrV::NULL => JsonV::Null,
        AttrV::L(v) => JsonV::Array(plain_trees(v)),
        AttrV::M(es) => JsonV::Object(plain_entries(es)),
        AttrV::SS(ss) => JsonV::Array(str_trees(ss)),
        AttrV::NS(ns) => JsonV::Array(num_trees(ns)),
        AttrV::BS(bs) => JsonV::Array(blob_trees(bs)),
    }
}

/// The plain-JSON forms of a list of attributes.
pub open spec fn plain_trees(v: Seq<AttrV>) -> Seq<JsonV>
    decreases v,
{
    if v.len() == 0 {
        Seq::empty()
    } else {
        plain_trees(v.subrange(0, v.len() - 1)).push(plain_tree(v[v.len() - 1]))
    }
}

/// The plain-JSON members for named attributes, in their order.
pub open spec fn plain_entries(es: Seq<(Seq<char>, AttrV)>) -> Seq<(Seq<char>, JsonV)>
    decreases es,
{
    if es.len() == 0 {
        Seq::empty()
    } else {
        plain_entries(es.subrange(0, es.len() - 1)).push(
            (es[es.len() - 1].0, plain_tree(es[es.len() - 1].1)),
        )
    }
}

/// The entries of an item stored under the given names, in the order of the
/// names (names the item lacks are left out).
pub open spec fn key_entries(es: Seq<(Seq<char>, AttrV)>, names: Seq<Seq<char>>) -> Seq<
    (Seq<char>, AttrV),
>
    decreases names.len(),
{
    if names.len() == 0 {
        Seq::empty()
    } else {
        let rest = key_entries(es, names.drop_last());
        match lookup(es, names.last()) {
            Some(v) => rest.push((names.last(), v)),
            None => rest,
        }
    }
}

/// The entries of an item whose names are not among `names`, in order.
pub open spec fn other_entries(es: Seq<(Seq<char>, AttrV)>, names: Seq<Seq<char>>) -> Seq<
    (Seq<char>, AttrV),
>
    decreases es.len(),
{
    if es.len() == 0 {
        Seq::empty()
    } else {
        let rest = other_entries(es.drop_last(), names);
        if names.contains(es.last().0) {
            rest
        } else {
            rest.push(es.last())
        }
    }
}

/// The entries of an item in the order they are written: the key attributes
/// first, then the others.
pub open spec fn ordered_entries(es: Seq<(Seq<char>, AttrV)>, schema: KeySchemaType) -> Seq<
    (Seq<char>, AttrV),
> {
    key_entries(es, key_names(schema)) + other_entries(es, key_names(schema))
}

/// The typed-JSON document of an item.
pub open spec fn typed_item(es: Seq<(Seq<char>, AttrV)>, schema: KeySchemaType) -> JsonV {
    JsonV::Object(typed_entries(ordered_entries(es, schema)))
}

/// The plain-JSON document of an item.
pub open spec fn plain_item(es: Seq<(Seq<char>, AttrV)>, schema: KeySchemaType) -> JsonV {
    JsonV::Object(plain_entries(ordered_entries(es, schema)))
}

// ---------------------------------------------------------------------------
// Writing values
// ---------------------------------------------------------------------------

/// A one-member object.
fn tag(t: &str, v: JsonValue) -> (r: JsonValue)
    ensures
        r@ == tagged(t@, v@),
{
    let mut ms: Vec<(String, JsonValue)> = Vec::new();
    ms.push((copy_str(t), v));
    let r = JsonValue::Object(ms);
    assert(json_members_view(ms@) =~= seq![(t@, v@)]);
    r
}

/// Strings as JSON strings.
fn str_values(v: &Vec<String>) -> (r: Vec<JsonValue>)
    ensures
        json_list_view(r@) == str_trees(strs_view(v@)),
{
    let mut r: Vec<JsonValue> = Vec::new();
    let mut i: usize = 0;
    while i < v.len()
        invariant
            i <= v.len(),
            r@.len() == i,
            forall|k: int| 0 <= k < i ==> (#[trigger] r@[k])@ == JsonV::Str(v@[k]@),
        decreases v.len() - i,
    {
        r.push(JsonValue::Str(v[i].clone()));
        i += 1;
    }
    assert(json_list_view(r@) =~= str_trees(strs_view(v@)));
    r
}

/// Numbers as JSON strings (`quoted`) or JSON numbers.
fn num_values(v: &Vec<Number>, quoted: bool) -> (r: Vec<JsonValue>)
    requires
        forall|k: int| 0 <= k < v@.len() ==> (#[trigger] v@[k]).wf(),
    ensures
        json_list_view(r@) == if quoted {
            num_strs(v@)
        } else {
            num_trees(v@)
        },
{
    let mut r: Vec<JsonValue> = Vec::new();
    let mut i: usize = 0;
    while i < v.len()
        invariant
            i <= v.len(),
            r@.len() == i,
            forall|k: int| 0 <= k < v@.len() ==> (#[trigger] v@[k]).wf(),
            forall|k: int|
                0 <= k < i ==> (#[trigger] r@[k])@ == if quoted {
                    JsonV::Str(decimal_text(v@[k]))
                } else {
                    JsonV::Number(decimal_text(v@[k]))
                },
        decreases v.len() - i,
    {
        let t = number_text(&v[i]);
        if quoted {
            r.push(JsonValue::Str(t));
        } else {
            r.push(JsonValue::Number(t));
        }
        i += 1;
    }
    if quoted {
        assert(json_list_view(r@) =~= num_strs(v@));
    } else {
        assert(json_list_view(r@) =~= num_trees(v@));
    }
    r
}

/// Byte strings as JSON strings holding their base64 text.
fn blob_values(v: &Vec<Vec<u8>>) -> (r: Vec<JsonValue>)
    ensures
        json_list_view(r@) == blob_trees(blobs_view(v@)),
{
    let mut r: Vec<JsonValue> = Vec::new();
    let mut i: usize = 0;
    while i < v.len()
        invariant
            i <= v.len(),
            r@.len() == i,
            forall|k: int| 0 <= k < i ==> (#[trigger] r@[k])@ == JsonV::Str(base64_encode(v@[k]@)),
        decreases v.len() - i,
    {
        r.push(JsonValue::Str(to_base64_str(v[i].as_slice())));
        i += 1;
    }
    assert(json_list_view(r@) =~= blob_trees(blobs_view(v@)));
    r
}

/// The JSON form of an attribute: typed (see [`typed_tree`]) or plain (see
/// [`plain_tree`]).
pub fn attribute_json(a: &Attribute, typed: bool) -> (r: JsonValue)
    requires
        attr_wf(a@),
    ensures
        r@ == if typed {
            typed_tree(a@)
        } else {
            plain_tree(a@)
        },
    decreases a,
{
    match a {
        Attribute::S(s) => {
            let v = JsonValue::Str(s.clone());
            if typed {
                tag("S", v)
            } else {
                v
            }
        },
        Attribute::N(n) => {
            let t = number_text(n);
            if typed {
                tag("N", JsonValue::Str(t))
            } else {
                JsonValue::Number(t)
            }
        },
        Attribute::B(b) => {
            let v = JsonValue::Str(to_base64_str(b.as_slice()));
            if typed {
                tag("B", v)
            } else {
                v
            }
        },
        Attribute::BOOL(b) => {
            let v = JsonValue::Bool(*b);
            if typed {
                tag("BOOL", v)
            } else {
                v
            }
        },
        Attribute::NULL => {
            if typed {
                tag("NULL", JsonValue::Bool(true))
            } else {
                JsonValue::Null
            }
        },
        Attribute::L(v) => {
            let ghost lv = list_view(v@);
            let mut out: Vec<JsonValue> = Vec::new();
            let mut i: usize = 0;
            assert(lv.take(0) =~= Seq::<AttrV>::empty());
            assert(json_list_view(out@) =~= Seq::<JsonV>::empty());
            while i < v.len()
                invariant
                    *a is L && a->L_0 == *v,
                    attr_wf(AttrV::L(lv)),
                    lv == list_view(v@),
                    lv.len() == v@.len(),
                    i <= v.len(),
                    json_list_view(out@) == if typed {
                        typed_trees(lv.take(i as int))
                    } else {
                        plain_trees(lv.take(i as int))
                    },
                decreases v.len() - i,
            {
                proof {
                    assert(decreases_to!(*v => v@[i as int]));
                    assert(decreases_to!(*a => a->L_0));
                    lemma_attr_wf_list(lv, i as int);
                    assert(lv[i as int] == v@[i as int]@);
                }
                let x = attribute_json(&v[i], typed);
                let ghost before = json_list_view(out@);
                out.push(x);
                proof {
                    let t = lv.take(i + 1);
                    assert(t.subrange(0, t.len() - 1) =~= lv.take(i as int));
                    assert(t[t.len() - 1] == lv[i as int]);
                    assert(json_list_view(out@) =~= before.push(x@));
                }
                i += 1;
            }
            assert(lv.take(v.len() as int) =~= lv);
            assert(a@ == AttrV::L(lv));
            if typed {
                tag("L", JsonValue::Array(out))
            } else {
                JsonValue::Array(out)
            }
        },
        Attribute::M(m) => {
            proof {
                assert(decreases_to!(*a => a->M_0));
                lemma_attr_wf_map(m@);
            }
            let ms = members_json(m, typed);
            if typed {
                tag("M", JsonValue::Object(ms))
            } else {
                JsonValue::Object(ms)
            }
        },
        Attribute::SS(v) => {
            let xs = str_values(v);
            if typed {
                tag("SS", JsonValue::Array(xs))
            } else {
                JsonValue::Array(xs)
            }
        },
        Attribute::NS(v) => {
            let xs = num_values(v, typed);
            if typed {
                tag("NS", JsonValue::Array(xs))
            } else {
                JsonValue::Array(xs)
            }
        },
        Attribute::BS(v) => {
            let xs = blob_values(v);
            if typed {
                tag("BS", JsonValue::Array(xs))
            } else {
                JsonValue::Array(xs)
            }
        },
    }
}

/// The JSON members for the entries of a map, in order.
fn members_json(m: &AttrMap, typed: bool) -> (r: Vec<(String, JsonValue)>)
    requires
        entries_wf(m@),
    ensures
        json_members_view(r@) == if typed {
            typed_entries(m@)
        } else {
            plain_entries(m@)
        },
    decreases m,
{
    let ghost mv = m@;
    let mut out: Vec<(String, JsonValue)> = Vec::new();
    let mut i: usize = 0;
    assert(mv.take(0) =~= Seq::<(Seq<char>, AttrV)>::empty());
    assert(json_members_view(out@) =~= Seq::<(Seq<char>, JsonV)>::empty());
    while i < m.entries.len()
        invariant
            mv == m@,
            entries_wf(mv),
            mv.len() == m.entries@.len(),
            i <= m.entries.len(),
            json_members_view(out@) == if typed {
                typed_entries(mv.take(i as int))
            } else {
                plain_entries(mv.take(i as int))
            },
        decreases m.entries.len() - i,
    {
        proof {
            assert(decreases_to!(*m => m.entries));
            assert(decreases_to!(m.entries => m.entries@[i as int]));
            assert(decreases_to!(m.entries@[i as int] => m.entries@[i as int].1));
            assert(mv[i as int] == (m.entries@[i as int].0@, m.entries@[i as int].1@));
            assert(attr_wf(mv[i as int].1));
        }
        let x = attribute_json(&m.entries[i].1, typed);
        let ghost before = json_members_view(out@);
        out.push((m.entries[i].0.clone(), x));
        proof {
            let t = mv.take(i + 1);
            assert(t.subrange(0, t.len() - 1) =~= mv.take(i as int));
            assert(t[t.len() - 1] == mv[i as int]);
            assert(json_members_view(out@) =~= before.push((mv[i as int].0, x@)));
        }
        i += 1;
    }
    assert(mv.take(m.entries.len() as int) =~= mv);
    out
}

// ---------------------------------------------------------------------------
// Writing items
// ---------------------------------------------------------------------------

/// Writing one more entry.
proof fn lemma_entries_push(es: Seq<(Seq<char>, AttrV)>, e: (Seq<char>, AttrV))
    ensures
        typed_entries(es.push(e)) == typed_entries(es).push((e.0, typed_tree(e.1))),
        plain_entries(es.push(e)) == plain_entries(es).push((e.0, plain_tree(e.1))),
{
    assert(es.push(e).subrange(0, es.len() as int) =~= es);
}

/// The key entries for one more name.
proof fn lemma_key_entries_push(es: Seq<(Seq<char>, AttrV)>, names: Seq<Seq<char>>, n: Seq<char>)
    ensures
        key_entries(es, names.push(n)) == match lookup(es, n) {
            Some(v) => key_entries(es, names).push((n, v)),
            None => key_entries(es, names),
        },
{
    assert(names.push(n).drop_last() =~= names);
}

/// Whether a name is one of the key attributes of a schema.
fn is_key_name(name: &String, schema: &KeySchemaType) -> (r: bool)
    ensures
        r == key_names(*schema).contains(name@),
{
    let ghost names = key_names(*schema);
    match schema {
        KeySchemaType::Hash(pk) => {
            let r = *name == *pk;
            proof {
                assert(names[0] == pk@);
                if names.contains(name@) {
                    let j = choose|j: int| 0 <= j < names.len() && names[j] == name@;
                    assert(j == 0);
                }
            }
            r
        },
        KeySchemaType::HashRange(pk, sk) => {
            let r = *name == *pk || *name == *sk;
            proof {
                assert(names[0] == pk@ && names[1] == sk@);
                if names.contains(name@) {
                    let j = choose|j: int| 0 <= j < names.len() && names[j] == name@;
                    assert(j == 0 || j == 1);
                }
            }
            r
        },
    }
}

/// Appends the member for the entry stored under `name`, if the item has one.
fn push_key_member(
    item: &Item,
    name: &String,
    typed: bool,
    out: &mut Vec<(String, JsonValue)>,
)
    requires
        entries_wf(item@),
    ensures
        json_members_view(final(out)@) == match lookup(item@, name@) {
            Some(v) => json_members_view(old(out)@).push(
                (name@, if typed { typed_tree(v) } else { plain_tree(v) }),
            ),
            None => json_members_view(old(out)@),
        },
{
    match item.attributes.get(name.as_str()) {
        Some(a) => {
            proof {
                crate::data::lemma_lookup_wf(item@, name@);
            }
            let x = attribute_json(a, typed);
            let ghost before = json_members_view(out@);
            out.push((name.clone(), x));
            assert(json_members_view(out@) =~= before.push((name@, x@)));
        },
        None => {},
    }
}

/// The JSON members of an item in the order they are written (see
/// [`ordered_entries`]).
fn item_members(item: &Item, schema: &KeySchemaType, typed: bool) -> (r: Vec<
    (String, JsonValue),
>)
    requires
        entries_wf(item@),
    ensures
        json_members_view(r@) == if typed {
            typed_entries(ordered_entries(item@, *schema))
        } else {
            plain_entries(ordered_entries(item@, *schema))
        },
{
    let ghost es = item@;
    let ghost names = key_names(*schema);
    let mut out: Vec<(String, JsonValue)> = Vec::new();
    assert(json_members_view(out@) =~= Seq::<(Seq<char>, JsonV)>::empty());
    // key attributes, partition key first
    match schema {
        KeySchemaType::Hash(pk) => {
            push_key_member(item, pk, typed, &mut out);
            proof {
                let e = Seq::<Seq<char>>::empty();
                assert(e.push(pk@) =~= names);
                lemma_key_entries_push(es, e, pk@);
                if let Some(v) = lookup(es, pk@) {
                    lemma_entries_push(Seq::empty(), (pk@, v));
                }
            }
        },
        KeySchemaType::HashRange(pk, sk) => {
            push_key_member(item, pk, typed, &mut out);
            let ghost mid = json_members_view(out@);
            let ghost e = Seq::<Seq<char>>::empty();
            proof {
                lemma_key_entries_push(es, e, pk@);
                if let Some(v) = lookup(es, pk@) {
                    lemma_entries_push(Seq::empty(), (pk@, v));
                }
            }
            push_key_member(item, sk, typed, &mut out);
            proof {
                assert(e.push(pk@).push(sk@) =~= names);
                lemma_key_entries_push(es, e.push(pk@), sk@);
                if let Some(v) = lookup(es, sk@) {
                    lemma_entries_push(key_entries(es, e.push(pk@)), (sk@, v));
                }
            }
        },
    }
    let ghost keys_part = json_members_view(out@);
    assert(keys_part == if typed {
        typed_entries(key_entries(es, names))
    } else {
        plain_entries(key_entries(es, names))
    });
    // the other attributes, in ascending order
    let entries = &item.attributes.entries;
    let ghost mut others: Seq<(Seq<char>, AttrV)> = Seq::empty();
    let mut i: usize = 0;
    assert(es.take(0) =~= Seq::<(Seq<char>, AttrV)>::empty());
    assert(keys_part + typed_entries(others) =~= keys_part);
    assert(keys_part + plain_entries(others) =~= keys_part);
    while i < entries.len()
        invariant
            es == item@,
            es == pairs_view(entries@),
            entries_wf(es),
            es.len() == entries@.len(),
            i <= entries.len(),
            names == key_names(*schema),
            others == other_entries(es.take(i as int), names),
            json_members_view(out@) == keys_part + if typed {
                typed_entries(others)
            } else {
                plain_entries(others)
            },
        decreases entries.len() - i,
    {
        let is_key = is_key_name(&entries[i].0, schema);
        proof {
            let t = es.take(i + 1);
            assert(t.drop_last() =~= es.take(i as int));
            assert(t.last() == es[i as int]);
            assert(es[i as int] == (entries@[i as int].0@, entries@[i as int].1@));
        }
        if !is_key {
            proof {
                assert(attr_wf(es[i as int].1));
            }
            let x = attribute_json(&entries[i].1, typed);
            let ghost before = json_members_view(out@);
            out.push((entries[i].0.clone(), x));
            proof {
                assert(json_members_view(out@) =~= before.push((es[i as int].0, x@)));
                lemma_entries_push(others, es[i as int]);
                others = others.push(es[i as int]);
                if typed {
                    assert(json_members_view(out@) =~= keys_part + typed_entries(others));
                } else {
                    assert(json_members_view(out@) =~= keys_part + plain_entries(others));
                }
            }
        }
        i += 1;
    }
    proof {
        assert(es.take(entries.len() as int) =~= es);
        lemma_entries_concat(key_entries(es, names), others, typed);
    }
    out
}

/// Writing the members of two runs of entries one after the other.
proof fn lemma_entries_concat(a: Seq<(Seq<char>, AttrV)>, b: Seq<(Seq<char>, AttrV)>, typed: bool)
    ensures
        typed_entries(a + b) == typed_entries(a) + typed_entries(b),
        plain_entries(a + b) == plain_entries(a) + plain_entries(b),
    decreases b.len(),
{
    if b.len() == 0 {
        assert(a + b =~= a);
        assert(typed_entries(a) + typed_entries(b) =~= typed_entries(a));
        assert(plain_entries(a) + plain_entries(b) =~= plain_entries(a));
    } else {
        let bp = b.subrange(0, b.len() - 1);
        lemma_entries_concat(a, bp, typed);
        let ab = a + b;
        assert(ab.subrange(0, ab.len() - 1) =~= a + bp);
        assert(ab[ab.len() - 1] == b[b.len() - 1]);
        assert(typed_entries(a + b) =~= typed_entries(a) + typed_entries(b));
        assert(plain_entries(a + b) =~= plain_entries(a) + plain_entries(b));
    }
}

/// The typed-JSON document of an item (see [`typed_item`]).
pub fn typed_item_json(item: &Item, schema: &KeySchemaType) -> (r: JsonValue)
    requires
        entries_wf(item@),
    ensures
        r@ == typed_item(item@, *schema),
{
    JsonValue::Object(item_members(item, schema, true))
}

/// The plain-JSON document of an item (see [`plain_item`]).
pub fn plain_item_json(item: &Item, schema: &KeySchemaType) -> (r: JsonValue)
    requires
        entries_wf(item@),
    ensures
        r@ == plain_item(item@, *schema),
{
    JsonValue::Object(item_members(item, schema, false))
}

/// The typed JSON of an item as text, laid out over several lines, e.g.
/// `{\n  "PK": {\n    "S": ""\n  }\n}`.
pub fn typed_json_text(item: &Item, schema: &KeySchemaType) -> (r: String)
    requires
        entries_wf(item@),
    ensures
        r@ == pretty(typed_item(item@, *schema), Seq::empty()),
{
    to_pretty_json(&typed_item_json(item, schema))
}

/// The plain JSON of an item as text, laid out over several lines, e.g.
/// `{\n  "PK": "u#1",\n  "n": 30\n}`.
pub fn plain_json_text(item: &Item, schema: &KeySchemaType) -> (r: String)
    requires
        entries_wf(item@),
    ensures
        r@ == pretty(plain_item(item@, *schema), Seq::empty()),
{
    to_pretty_json(&plain_item_json(item, schema))
}

} // verus!
