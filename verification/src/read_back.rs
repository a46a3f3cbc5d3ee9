//! Reading back the text of a written item. `serde_json` reads a document
//! into a map per object, so what it gives back for the printed text of a
//! document is that document with each object's members in ascending key
//! order, the last of equal keys kept ([`ascending`]). Reading a document in
//! that order gives the same attributes as reading it in the order written;
//! with the document-level round trips this carries the round trip from an
//! item through its printed text and back.
use vstd::prelude::*;

use crate::data::{AttrV, has_key, keys_sorted, lemma_lookup_at, lemma_map_insert, lookup, map_insert};
use crate::item_json::{
    blob_of, blobs_of, decimal_of, item_plain, item_typed, nums_of, plain_attr, plain_list,
    plain_map, str_of, strs_of, typed_attr, typed_list, typed_map,
};
use crate::json::{json_tree_of, pretty};
use crate::json_view::JsonV;

verus! {

// ---------------------------------------------------------------------------
// Members in ascending key order
// ---------------------------------------------------------------------------

/// A document with the members of each object, at any depth, in ascending
/// key order, the last of equal keys kept.
pub open spec fn ascending(v: JsonV) -> JsonV
    decreases v,
{
    match v {
        JsonV::Array(xs) => JsonV::Array(ascending_list(xs)),
        JsonV::Object(ms) => JsonV::Object(ascending_members(ms)),
        _ => v,
    }
}

/// The documents of a list, each in ascending order (see [`ascending`]).
pub open spec fn ascending_list(xs: Seq<JsonV>) -> Seq<JsonV>
    decreases xs,
{
    if xs.len() == 0 {
        Seq::empty()
    } else {
        ascending_list(xs.subrange(0, xs.len() - 1)).push(ascending(xs[xs.len() - 1]))
    }
}

/// The members of an object stored one after another under their keys, in
/// ascending key order, each value in ascending order (see [`ascending`]).
pub open spec fn ascending_members(ms: Seq<(Seq<char>, JsonV)>) -> Seq<(Seq<char>, JsonV)>
    decreases ms,
{
    if ms.len() == 0 {
        Seq::empty()
    } else {
        map_insert(
            ascending_members(ms.subrange(0, ms.len() - 1)),
            ms[ms.len() - 1].0,
            ascending(ms[ms.len() - 1].1),
        )
    }
}

/// What `serde_json` gives back for the text printed for `doc`: `doc`, with
/// the members of each object in ascending key order, the last of equal keys
/// kept (`serde_json` reads an object into an ordered map), and the tokens
/// of numbers and the contents of strings as they were.
pub open spec fn serde_reads_back(doc: JsonV) -> bool {
    json_tree_of(pretty(doc, Seq::empty())) == Ok::<JsonV, Seq<char>>(ascending(doc))
}

/// The value of the last member with key `k`, if any.
pub open spec fn last_member(ms: Seq<(Seq<char>, JsonV)>, k: Seq<char>) -> Option<JsonV>
    decreases ms.len(),
{
    if ms.len() == 0 {
        None
    } else if ms[ms.len() - 1].0 == k {
        Some(ms[ms.len() - 1].1)
    } else {
        last_member(ms.subrange(0, ms.len() - 1), k)
    }
}

/// A member found last under a key is one of the members.
proof fn lemma_last_member_in(ms: Seq<(Seq<char>, JsonV)>, k: Seq<char>)
    ensures
        last_member(ms, k) matches Some(w) ==> exists|j: int| 0 <= j < ms.len() && #[trigger] ms[j] == (k, w),
        last_member(ms, k) is None <==> !has_key(ms, k),
    decreases ms.len(),
{
    if ms.len() > 0 {
        let p = ms.subrange(0, ms.len() - 1);
        lemma_last_member_in(p, k);
        if ms[ms.len() - 1].0 == k {
            assert(ms[ms.len() - 1] == (k, ms[ms.len() - 1].1));
        } else {
            if let Some(w) = last_member(p, k) {
                let j = choose|j: int| 0 <= j < p.len() && #[trigger] p[j] == (k, w);
                assert(ms[j] == p[j]);
            }
            if has_key(ms, k) {
                let j = choose|j: int| 0 <= j < ms.len() && (#[trigger] ms[j]).0 == k;
                assert(p[j] == ms[j]);
            }
            if has_key(p, k) {
                let j = choose|j: int| 0 <= j < p.len() && (#[trigger] p[j]).0 == k;
                assert(ms[j] == p[j]);
            }
        }
    }
}

/// With ascending keys, the last member under a key is the one a lookup
/// finds.
proof fn lemma_last_member_sorted(ms: Seq<(Seq<char>, JsonV)>, k: Seq<char>)
    requires
        keys_sorted(ms),
    ensures
        last_member(ms, k) == lookup(ms, k),
{
    lemma_last_member_in(ms, k);
    if let Some(w) = last_member(ms, k) {
        let j = choose|j: int| 0 <= j < ms.len() && #[trigger] ms[j] == (k, w);
        lemma_lookup_at(ms, j);
    }
}

/// A value in ascending order, if any.
pub open spec fn ascending_opt(o: Option<JsonV>) -> Option<JsonV> {
    match o {
        Some(w) => Some(ascending(w)),
        None => None,
    }
}

/// The members in ascending order have ascending keys, and under each key
/// the last value given for it, in ascending order.
proof fn lemma_ascending_members(ms: Seq<(Seq<char>, JsonV)>)
    ensures
        keys_sorted(ascending_members(ms)),
        forall|k: Seq<char>| #[trigger] lookup(ascending_members(ms), k) == ascending_opt(last_member(ms, k)),
    decreases ms.len(),
{
    if ms.len() > 0 {
        let p = ms.subrange(0, ms.len() - 1);
        let k0 = ms[ms.len() - 1].0;
        let w0 = ascending(ms[ms.len() - 1].1);
        let a = ascending_members(p);
        lemma_ascending_members(p);
        lemma_map_insert(a, k0, w0);
        assert(ascending_members(ms) == map_insert(a, k0, w0));
        assert forall|k: Seq<char>| #[trigger] lookup(ascending_members(ms), k) == ascending_opt(last_member(ms, k)) by {
            if k == k0 {
            } else {
                assert(last_member(ms, k) == last_member(p, k));
                assert(lookup(map_insert(a, k0, w0), k) == lookup(a, k));
            }
        }
    } else {
        assert forall|k: Seq<char>| #[trigger] lookup(ascending_members(ms), k) == ascending_opt(last_member(ms, k)) by {
            assert(!has_key(ascending_members(ms), k));
        }
    }
}

/// A one-member object keeps its member.
proof fn lemma_ascending_one(ms: Seq<(Seq<char>, JsonV)>)
    requires
        ms.len() == 1,
    ensures
        ascending_members(ms) == seq![(ms[0].0, ascending(ms[0].1))],
{
    assert(ms.subrange(0, 0) =~= Seq::<(Seq<char>, JsonV)>::empty());
    assert(ascending_members(ms.subrange(0, 0)) == Seq::<(Seq<char>, JsonV)>::empty());
}

/// A list in ascending order: the order of the rest, then the last.
proof fn lemma_ascending_list_last(xs: Seq<JsonV>)
    requires
        xs.len() > 0,
    ensures
        ascending_list(xs).len() == xs.len(),
        ascending_list(xs).drop_last() == ascending_list(xs.drop_last()),
        ascending_list(xs).last() == ascending(xs.last()),
    decreases xs.len(),
{
    assert(xs.drop_last() =~= xs.subrange(0, xs.len() - 1));
    lemma_ascending_list_len(xs.drop_last());
}

proof fn lemma_ascending_list_len(xs: Seq<JsonV>)
    ensures
        ascending_list(xs).len() == xs.len(),
    decreases xs.len(),
{
    if xs.len() > 0 {
        assert(xs.drop_last() =~= xs.subrange(0, xs.len() - 1));
        lemma_ascending_list_len(xs.drop_last());
    }
}

// ---------------------------------------------------------------------------
// What reading a map gives, member by member
// ---------------------------------------------------------------------------

/// The typed attribute of a value, if any and if it reads.
pub open spec fn typed_opt(o: Option<JsonV>) -> Option<AttrV> {
    match o {
        Some(w) => match typed_attr(w) {
            Ok(a) => Some(a),
            Err(_) => None,
        },
        None => None,
    }
}

/// The plain attribute of a value, if any and if it reads.
pub open spec fn plain_opt(o: Option<JsonV>) -> Option<AttrV> {
    match o {
        Some(w) => match plain_attr(w) {
            Ok(a) => Some(a),
            Err(_) => None,
        },
        None => None,
    }
}

/// Typed members read when each of them does; the map has ascending keys
/// and holds under each key the attribute of the last member with it.
proof fn lemma_typed_map_members(ms: Seq<(Seq<char>, JsonV)>)
    ensures
        typed_map(ms) is Ok <==> forall|i: int| 0 <= i < ms.len() ==> #[trigger] typed_attr(ms[i].1) is Ok,
        typed_map(ms) matches Ok(m) ==> keys_sorted(m) && forall|k: Seq<char>| #[trigger] lookup(m, k)
            == typed_opt(last_member(ms, k)),
    decreases ms.len(),
{
    if ms.len() == 0 {
        assert forall|k: Seq<char>| #[trigger] lookup(Seq::<(Seq<char>, AttrV)>::empty(), k)
            == typed_opt(last_member(ms, k)) by {
            assert(!has_key(Seq::<(Seq<char>, AttrV)>::empty(), k));
        }
    } else {
        let p = ms.subrange(0, ms.len() - 1);
        lemma_typed_map_members(p);
        let last = ms[ms.len() - 1];
        if forall|i: int| 0 <= i < ms.len() ==> #[trigger] typed_attr(ms[i].1) is Ok {
            assert forall|i: int| 0 <= i < p.len() implies #[trigger] typed_attr(p[i].1) is Ok by {
                assert(p[i] == ms[i]);
            }
            assert(typed_attr(ms[ms.len() - 1].1) is Ok);
        }
        if typed_map(ms) is Ok {
            assert forall|i: int| 0 <= i < ms.len() implies #[trigger] typed_attr(ms[i].1) is Ok by {
                if i < ms.len() - 1 {
                    assert(p[i] == ms[i]);
                }
            }
            let m0 = typed_map(p)->Ok_0;
            let a = typed_attr(last.1)->Ok_0;
            lemma_map_insert(m0, last.0, a);
            let m = typed_map(ms)->Ok_0;
            assert(m == map_insert(m0, last.0, a));
            assert forall|k: Seq<char>| #[trigger] lookup(m, k) == typed_opt(last_member(ms, k)) by {
                if k != last.0 {
                    assert(last_member(ms, k) == last_member(p, k));
                    assert(lookup(m, k) == lookup(m0, k));
                    assert(lookup(m0, k) == typed_opt(last_member(p, k)));
                } else {
                    assert(last_member(ms, k) == Some(last.1));
                    assert(lookup(m, k) == Some(a));
                }
            }
        }
    }
}

/// Plain members read when each of them does (see
/// [`lemma_typed_map_members`]).
proof fn lemma_plain_map_members(ms: Seq<(Seq<char>, JsonV)>)
    ensures
        plain_map(ms) is Ok <==> forall|i: int| 0 <= i < ms.len() ==> #[trigger] plain_attr(ms[i].1) is Ok,
        plain_map(ms) matches Ok(m) ==> keys_sorted(m) && forall|k: Seq<char>| #[trigger] lookup(m, k)
            == plain_opt(last_member(ms, k)),
    decreases ms.len(),
{
    if ms.len() == 0 {
        assert forall|k: Seq<char>| #[trigger] lookup(Seq::<(Seq<char>, AttrV)>::empty(), k)
            == plain_opt(last_member(ms, k)) by {
            assert(!has_key(Seq::<(Seq<char>, AttrV)>::empty(), k));
        }
    } else {
        let p = ms.subrange(0, ms.len() - 1);
        lemma_plain_map_members(p);
        let last = ms[ms.len() - 1];
        if forall|i: int| 0 <= i < ms.len() ==> #[trigger] plain_attr(ms[i].1) is Ok {
            assert forall|i: int| 0 <= i < p.len() implies #[trigger] plain_attr(p[i].1) is Ok by {
                assert(p[i] == ms[i]);
            }
            assert(plain_attr(ms[ms.len() - 1].1) is Ok);
        }
        if plain_map(ms) is Ok {
            assert forall|i: int| 0 <= i < ms.len() implies #[trigger] plain_attr(ms[i].1) is Ok by {
                if i < ms.len() - 1 {
                    assert(p[i] == ms[i]);
                }
            }
            let m0 = plain_map(p)->Ok_0;
            let a = plain_attr(last.1)->Ok_0;
            lemma_map_insert(m0, last.0, a);
            let m = plain_map(ms)->Ok_0;
            assert(m == map_insert(m0, last.0, a));
            assert forall|k: Seq<char>| #[trigger] lookup(m, k) == plain_opt(last_member(ms, k)) by {
                if k != last.0 {
                    assert(last_member(ms, k) == last_member(p, k));
                    assert(lookup(m, k) == lookup(m0, k));
                    assert(lookup(m0, k) == plain_opt(last_member(p, k)));
                } else {
                    assert(last_member(ms, k) == Some(last.1));
                    assert(lookup(m, k) == Some(a));
                }
            }
        }
    }
}


// ---------------------------------------------------------------------------
// Reading in ascending order reads the same
// ---------------------------------------------------------------------------

/// The elements of a string set read in ascending order read the same.
proof fn lemma_strs_ascending(xs: Seq<JsonV>)
    ensures
        strs_of(xs) is Ok ==> strs_of(ascending_list(xs)) == strs_of(xs),
    decreases xs.len(),
{
    if xs.len() > 0 {
        lemma_ascending_list_last(xs);
        lemma_strs_ascending(xs.drop_last());
        if strs_of(xs) is Ok {
            assert(str_of(xs.last(), "SS element"@) is Ok);
            assert(ascending(xs.last()) == xs.last());
        }
    }
}

/// The elements of a number set read in ascending order read the same.
proof fn lemma_nums_ascending(xs: Seq<JsonV>)
    ensures
        nums_of(xs) is Ok ==> nums_of(ascending_list(xs)) == nums_of(xs),
    decreases xs.len(),
{
    if xs.len() > 0 {
        lemma_ascending_list_last(xs);
        lemma_nums_ascending(xs.drop_last());
        if nums_of(xs) is Ok {
            assert(decimal_of(xs.last(), "NS element"@) is Ok);
            assert(ascending(xs.last()) == xs.last());
        }
    }
}

/// The elements of a binary set read in ascending order read the same.
proof fn lemma_blobs_ascending(xs: Seq<JsonV>)
    ensures
        blobs_of(xs) is Ok ==> blobs_of(ascending_list(xs)) == blobs_of(xs),
    decreases xs.len(),
{
    if xs.len() > 0 {
        lemma_ascending_list_last(xs);
        lemma_blobs_ascending(xs.drop_last());
        if blobs_of(xs) is Ok {
            assert(blob_of(xs.last(), "BS element"@) is Ok);
            assert(ascending(xs.last()) == xs.last());
        }
    }
}

/// A typed value read in ascending order reads the same.
proof fn lemma_typed_attr_ascending(v: JsonV)
    ensures
        typed_attr(v) is Ok ==> typed_attr(ascending(v)) == typed_attr(v),
    decreases v, 0int,
{
    if let JsonV::Object(ms) = v {
        if ms.len() == 1 && typed_attr(v) is Ok {
            lemma_ascending_one(ms);
            let val = ms[0].1;
            assert(decreases_to!(v => ms));
            assert(decreases_to!(ms => ms[0]));
            assert(decreases_to!(ms[0] => ms[0].1));
            match val {
                JsonV::Array(xs) => {
                    assert(decreases_to!(val => xs));
                    lemma_typed_list_ascending(xs);
                    lemma_strs_ascending(xs);
                    lemma_nums_ascending(xs);
                    lemma_blobs_ascending(xs);
                },
                JsonV::Object(es) => {
                    assert(decreases_to!(val => es));
                    lemma_typed_map_ascending(es);
                },
                _ => {},
            }
        }
    }
}

/// A plain value read in ascending order reads the same.
proof fn lemma_plain_attr_ascending(v: JsonV)
    ensures
        plain_attr(v) is Ok ==> plain_attr(ascending(v)) == plain_attr(v),
    decreases v, 0int,
{
    match v {
        JsonV::Array(xs) => {
            assert(decreases_to!(v => xs));
            lemma_plain_list_ascending(xs);
        },
        JsonV::Object(es) => {
            assert(decreases_to!(v => es));
            lemma_plain_map_ascending(es);
        },
        _ => {},
    }
}

proof fn lemma_typed_members_ascending(ms: Seq<(Seq<char>, JsonV)>)
    ensures
        forall|i: int|
            0 <= i < ms.len() && typed_attr(ms[i].1) is Ok ==> #[trigger] typed_attr(ascending(ms[i].1)) == typed_attr(ms[i].1),
    decreases ms, 1int,
{
    if ms.len() > 0 {
        let p = ms.subrange(0, ms.len() - 1);
        lemma_typed_members_ascending(p);
        assert(decreases_to!(ms => ms[ms.len() - 1]));
        assert(decreases_to!(ms[ms.len() - 1] => ms[ms.len() - 1].1));
        lemma_typed_attr_ascending(ms[ms.len() - 1].1);
        assert forall|i: int|
            0 <= i < ms.len() && typed_attr(ms[i].1) is Ok implies #[trigger] typed_attr(ascending(ms[i].1)) == typed_attr(ms[i].1) by {
            if i < ms.len() - 1 {
                assert(p[i] == ms[i]);
            }
        }
    }
}

proof fn lemma_typed_list_ascending(xs: Seq<JsonV>)
    ensures
        typed_list(xs) is Ok ==> typed_list(ascending_list(xs)) == typed_list(xs),
    decreases xs, 1int,
{
    if xs.len() > 0 {
        let p = xs.subrange(0, xs.len() - 1);
        lemma_typed_list_ascending(p);
        assert(decreases_to!(xs => xs[xs.len() - 1]));
        lemma_typed_attr_ascending(xs[xs.len() - 1]);
        let a = ascending_list(xs);
        lemma_ascending_list_len(xs);
        assert(a.subrange(0, a.len() - 1) =~= ascending_list(p));
        assert(a[a.len() - 1] == ascending(xs[xs.len() - 1]));
    }
}

/// Reading the members of an object in ascending key order gives the map
/// that reading them in their own order gives.
proof fn lemma_typed_map_ascending(ms: Seq<(Seq<char>, JsonV)>)
    ensures
        typed_map(ms) is Ok ==> typed_map(ascending_members(ms)) == typed_map(ms),
    decreases ms, 2int,
{
    if typed_map(ms) is Ok {
        let m = typed_map(ms)->Ok_0;
        let x = ascending_members(ms);
        lemma_typed_map_members(ms);
        lemma_typed_members_ascending(ms);
        lemma_ascending_members(ms);
        assert forall|i: int| 0 <= i < x.len() implies #[trigger] typed_attr(x[i].1) is Ok by {
            lemma_lookup_at(x, i);
            lemma_last_member_in(ms, x[i].0);
            assert(lookup(x, x[i].0) == ascending_opt(last_member(ms, x[i].0)));
            let w = last_member(ms, x[i].0)->Some_0;
            let j = choose|j: int| 0 <= j < ms.len() && #[trigger] ms[j] == (x[i].0, w);
            assert(typed_attr(ms[j].1) is Ok);
            assert(typed_attr(ascending(ms[j].1)) == typed_attr(ms[j].1));
        }
        lemma_typed_map_members(x);
        let mx = typed_map(x)->Ok_0;
        assert forall|k: Seq<char>| lookup(mx, k) == lookup(m, k) by {
            lemma_last_member_sorted(x, k);
            lemma_last_member_in(ms, k);
            assert(lookup(mx, k) == typed_opt(last_member(x, k)));
            assert(lookup(m, k) == typed_opt(last_member(ms, k)));
            assert(lookup(x, k) == ascending_opt(last_member(ms, k)));
            if let Some(w) = last_member(ms, k) {
                let j = choose|j: int| 0 <= j < ms.len() && #[trigger] ms[j] == (k, w);
                assert(typed_attr(ms[j].1) is Ok);
                assert(typed_attr(ascending(ms[j].1)) == typed_attr(ms[j].1));
            }
        }
        crate::round_trip::lemma_sorted_unique(mx, m);
    }
}

proof fn lemma_plain_members_ascending(ms: Seq<(Seq<char>, JsonV)>)
    ensures
        forall|i: int|
            0 <= i < ms.len() && plain_attr(ms[i].1) is Ok ==> #[trigger] plain_attr(ascending(ms[i].1)) == plain_attr(ms[i].1),
    decreases ms, 1int,
{
    if ms.len() > 0 {
        let p = ms.subrange(0, ms.len() - 1);
        lemma_plain_members_ascending(p);
        assert(decreases_to!(ms => ms[ms.len() - 1]));
        assert(decreases_to!(ms[ms.len() - 1] => ms[ms.len() - 1].1));
        lemma_plain_attr_ascending(ms[ms.len() - 1].1);
        assert forall|i: int|
            0 <= i < ms.len() && plain_attr(ms[i].1) is Ok implies #[trigger] plain_attr(ascending(ms[i].1)) == plain_attr(ms[i].1) by {
            if i < ms.len() - 1 {
                assert(p[i] == ms[i]);
            }
        }
    }
}

proof fn lemma_plain_list_ascending(xs: Seq<JsonV>)
    ensures
        plain_list(xs) is Ok ==> plain_list(ascending_list(xs)) == plain_list(xs),
    decreases xs, 1int,
{
    if xs.len() > 0 {
        let p = xs.subrange(0, xs.len() - 1);
        lemma_plain_list_ascending(p);
        assert(decreases_to!(xs => xs[xs.len() - 1]));
        lemma_plain_attr_ascending(xs[xs.len() - 1]);
        let a = ascending_list(xs);
        lemma_ascending_list_len(xs);
        assert(a.subrange(0, a.len() - 1) =~= ascending_list(p));
        assert(a[a.len() - 1] == ascending(xs[xs.len() - 1]));
    }
}

/// Reading the members of an object in ascending key order gives the map
/// that reading them in their own order gives.
proof fn lemma_plain_map_ascending(ms: Seq<(Seq<char>, JsonV)>)
    ensures
        plain_map(ms) is Ok ==> plain_map(ascending_members(ms)) == plain_map(ms),
    decreases ms, 2int,
{
    if plain_map(ms) is Ok {
        let m = plain_map(ms)->Ok_0;
        let x = ascending_members(ms);
        lemma_plain_map_members(ms);
        lemma_plain_members_ascending(ms);
        lemma_ascending_members(ms);
        assert forall|i: int| 0 <= i < x.len() implies #[trigger] plain_attr(x[i].1) is Ok by {
            lemma_lookup_at(x, i);
            lemma_last_member_in(ms, x[i].0);
            assert(lookup(x, x[i].0) == ascending_opt(last_member(ms, x[i].0)));
            let w = last_member(ms, x[i].0)->Some_0;
            let j = choose|j: int| 0 <= j < ms.len() && #[trigger] ms[j] == (x[i].0, w);
            assert(plain_attr(ms[j].1) is Ok);
            assert(plain_attr(ascending(ms[j].1)) == plain_attr(ms[j].1));
        }
        lemma_plain_map_members(x);
        let mx = plain_map(x)->Ok_0;
        assert forall|k: Seq<char>| lookup(mx, k) == lookup(m, k) by {
            lemma_last_member_sorted(x, k);
            lemma_last_member_in(ms, k);
            assert(lookup(mx, k) == plain_opt(last_member(x, k)));
            assert(lookup(m, k) == plain_opt(last_member(ms, k)));
            assert(lookup(x, k) == ascending_opt(last_member(ms, k)));
            if let Some(w) = last_member(ms, k) {
                let j = choose|j: int| 0 <= j < ms.len() && #[trigger] ms[j] == (k, w);
                assert(plain_attr(ms[j].1) is Ok);
                assert(plain_attr(ascending(ms[j].1)) == plain_attr(ms[j].1));
            }
        }
        crate::round_trip::lemma_sorted_unique(mx, m);
    }
}

// ---------------------------------------------------------------------------
// Items through their printed text
// ---------------------------------------------------------------------------

/// The typed JSON text of a well-formed item (see `typed_json_text`) reads
/// back as the item, each zero unsigned (the same item up to the value of
/// its numbers; see `unsign`), where `serde_json` reads the printed document
/// back (see [`serde_reads_back`]) and `rust_decimal` and base64 read back
/// what they wrote.
pub proof fn lemma_typed_text_round_trip(es: Seq<(Seq<char>, AttrV)>, schema: crate::data::KeySchemaType)
    requires
        crate::data::entries_wf(es),
        crate::round_trip::decimals_read_back(),
        crate::round_trip::base64_reads_back(),
        serde_reads_back(crate::item_write::typed_item(es, schema)),
    ensures
        item_typed(pretty(crate::item_write::typed_item(es, schema), Seq::empty()))
            == Ok::<Seq<(Seq<char>, AttrV)>, Seq<char>>(crate::round_trip::unsign_entries(es)),
{
    let ms = crate::item_write::typed_entries(crate::item_write::ordered_entries(es, schema));
    crate::round_trip::lemma_typed_item_round_trip(es, schema);
    lemma_typed_map_ascending(ms);
}

/// The plain JSON text of a well-formed item that plain JSON can express
/// (see `plain_json_text`) reads back as the item, each zero unsigned (see
/// `unsign`), where `serde_json` reads the printed document back (see
/// [`serde_reads_back`]) and `rust_decimal` reads back what it wrote.
pub proof fn lemma_plain_text_round_trip(es: Seq<(Seq<char>, AttrV)>, schema: crate::data::KeySchemaType)
    requires
        crate::data::entries_wf(es),
        crate::item_json::item_plain_convertible(es),
        crate::round_trip::decimals_read_back(),
        serde_reads_back(crate::item_write::plain_item(es, schema)),
    ensures
        item_plain(pretty(crate::item_write::plain_item(es, schema), Seq::empty()))
            == Ok::<Seq<(Seq<char>, AttrV)>, Seq<char>>(crate::round_trip::unsign_entries(es)),
{
    let ms = crate::item_write::plain_entries(crate::item_write::ordered_entries(es, schema));
    crate::round_trip::lemma_plain_item_round_trip(es, schema);
    lemma_plain_map_ascending(ms);
}

} // verus!
