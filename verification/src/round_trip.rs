//! Reading back what was written: the typed JSON document of an item reads
//! back as the same item, and so does the plain JSON document of an item that
//! plain JSON can express. Both rest on two facts of the outside crates that
//! the writer and the reader call: `rust_decimal` parses the text it prints
//! for a decimal back to that decimal (a negative zero comes back unsigned,
//! equal in value), and the base64 engine decodes what it encoded. What comes
//! back is the item with each zero unsigned ([`unsign`]): the same item up to
//! the value of its numbers.
use vstd::prelude::*;

use crate::client::key_names;
use crate::data::{
    AttrV, KeySchemaType, attr_wf, entries_wf, has_key, keys_of, keys_sorted, lemma_attr_wf_list,
    lemma_attr_wf_map, lemma_lookup_at, lemma_map_insert, lemma_map_insert_at, lookup, map_insert,
};
use crate::item_json::{
    all_plain, blobs_of, item_plain_convertible, nums_of, plain_attr, plain_convertible,
    plain_list, plain_map, strs_of, typed_attr, typed_list, typed_map,
};
use crate::item_write::{
    blob_trees, key_entries, num_strs, ordered_entries, other_entries, plain_entries,
    plain_tree, plain_trees, str_trees, typed_entries, typed_tree, typed_trees,
};
use crate::number::{Number, decimal_parse, decimal_text};
use crate::sets::{lemma_blobs_from_ascending, lemma_nums_from_ascending, lemma_strs_from_ascending};
use crate::text::{chars_lt, lemma_chars_lt_asymmetric, lemma_chars_lt_irreflexive};
use crate::util::{base64_decode, base64_encode};

verus! {

/// A number with the sign of a zero cleared; it has the same value.
pub open spec fn unsigned_zero(n: Number) -> Number {
    if n.magnitude == 0 {
        Number { negative: false, magnitude: 0, scale: n.scale }
    } else {
        n
    }
}

/// An attribute with the sign of every zero in it cleared, at any depth: the
/// same attribute up to the value of its numbers.
pub open spec fn unsign(a: AttrV) -> AttrV
    decreases a,
{
    match a {
        AttrV::N(n) => AttrV::N(unsigned_zero(n)),
        AttrV::NS(ns) => AttrV::NS(unsign_nums(ns)),
        AttrV::L(v) => AttrV::L(unsign_list(v)),
        AttrV::M(es) => AttrV::M(unsign_entries(es)),
        _ => a,
    }
}

/// Numbers with the sign of each zero cleared.
pub open spec fn unsign_nums(ns: Seq<Number>) -> Seq<Number> {
    ns.map_values(|n: Number| unsigned_zero(n))
}

/// A list of attributes, each unsigned (see [`unsign`]).
pub open spec fn unsign_list(v: Seq<AttrV>) -> Seq<AttrV>
    decreases v,
{
    if v.len() == 0 {
        Seq::empty()
    } else {
        unsign_list(v.subrange(0, v.len() - 1)).push(unsign(v[v.len() - 1]))
    }
}

/// Entries, each value unsigned (see [`unsign`]).
pub open spec fn unsign_entries(es: Seq<(Seq<char>, AttrV)>) -> Seq<(Seq<char>, AttrV)>
    decreases es,
{
    if es.len() == 0 {
        Seq::empty()
    } else {
        unsign_entries(es.subrange(0, es.len() - 1)).push((es[es.len() - 1].0, unsign(es[es.len() - 1].1)))
    }
}

/// A number and its unsigned form have the same value.
pub proof fn lemma_unsigned_zero_same_value(n: Number)
    ensures
        crate::number::num_eq(unsigned_zero(n), n),
        unsigned_zero(n).signed() == n.signed(),
{
}

proof fn lemma_unsign_list_at(v: Seq<AttrV>)
    ensures
        unsign_list(v).len() == v.len(),
        forall|i: int| 0 <= i < v.len() ==> #[trigger] unsign_list(v)[i] == unsign(v[i]),
    decreases v.len(),
{
    if v.len() > 0 {
        let p = v.subrange(0, v.len() - 1);
        lemma_unsign_list_at(p);
        assert forall|i: int| 0 <= i < v.len() implies #[trigger] unsign_list(v)[i] == unsign(v[i]) by {
            if i < v.len() - 1 {
                assert(p[i] == v[i]);
            }
        }
    }
}

/// Entries unsigned keep their keys, in order, each value unsigned.
pub proof fn lemma_unsign_entries_at(es: Seq<(Seq<char>, AttrV)>)
    ensures
        unsign_entries(es).len() == es.len(),
        forall|i: int| 0 <= i < es.len() ==> #[trigger] unsign_entries(es)[i] == (es[i].0, unsign(es[i].1)),
        keys_of(unsign_entries(es)) == keys_of(es),
    decreases es.len(),
{
    if es.len() > 0 {
        let p = es.subrange(0, es.len() - 1);
        lemma_unsign_entries_at(p);
        assert forall|i: int| 0 <= i < es.len() implies #[trigger] unsign_entries(es)[i] == (es[i].0, unsign(es[i].1)) by {
            if i < es.len() - 1 {
                assert(p[i] == es[i]);
            }
        }
    }
    assert(keys_of(unsign_entries(es)) =~= keys_of(es));
}

/// Numbers unsigned stay within range and in ascending order.
proof fn lemma_unsign_nums_sorted(ns: Seq<Number>)
    requires
        crate::data::numbers_sorted(ns),
    ensures
        crate::data::numbers_sorted(unsign_nums(ns)),
{
    let u = unsign_nums(ns);
    assert forall|i: int, j: int| 0 <= i < j < u.len() implies crate::number::num_lt(#[trigger] u[i], #[trigger] u[j]) by {
        assert(crate::number::num_lt(ns[i], ns[j]));
        lemma_unsigned_zero_same_value(ns[i]);
        lemma_unsigned_zero_same_value(ns[j]);
    }
}

/// Unsigning keeps an attribute well-formed, and unsigning twice is
/// unsigning once.
pub proof fn lemma_unsign_attr(a: AttrV)
    requires
        attr_wf(a),
    ensures
        attr_wf(unsign(a)),
        unsign(unsign(a)) == unsign(a),
    decreases a, 0int,
{
    match a {
        AttrV::NS(ns) => {
            lemma_unsign_nums_sorted(ns);
            assert(unsign_nums(unsign_nums(ns)) =~= unsign_nums(ns));
        },
        AttrV::L(v) => {
            assert forall|i: int| 0 <= i < v.len() implies attr_wf(#[trigger] v[i]) by {
                lemma_attr_wf_list(v, i);
            }
            assert(decreases_to!(a => a->L_0));
            lemma_unsign_list(v);
        },
        AttrV::M(es) => {
            lemma_attr_wf_map(es);
            assert(decreases_to!(a => a->M_0));
            lemma_unsign_entries(es);
        },
        _ => {},
    }
}

proof fn lemma_unsign_list(v: Seq<AttrV>)
    requires
        forall|i: int| 0 <= i < v.len() ==> attr_wf(#[trigger] v[i]),
    ensures
        forall|i: int| 0 <= i < unsign_list(v).len() ==> attr_wf(#[trigger] unsign_list(v)[i]),
        unsign_list(unsign_list(v)) == unsign_list(v),
    decreases v, 1int,
{
    lemma_unsign_list_at(v);
    lemma_unsign_list_at(unsign_list(v));
    assert forall|i: int| 0 <= i < v.len() implies attr_wf(#[trigger] unsign(v[i])) && unsign(unsign(v[i])) == unsign(v[i]) by {
        assert(decreases_to!(v => v[i]));
        lemma_unsign_attr(v[i]);
    }
    assert forall|i: int| 0 <= i < unsign_list(v).len() implies attr_wf(#[trigger] unsign_list(v)[i]) by {
        assert(unsign_list(v)[i] == unsign(v[i]));
    }
    assert(unsign_list(unsign_list(v)) =~= unsign_list(v));
}

proof fn lemma_unsign_entries(es: Seq<(Seq<char>, AttrV)>)
    requires
        entries_wf(es),
    ensures
        entries_wf(unsign_entries(es)),
        unsign_entries(unsign_entries(es)) == unsign_entries(es),
    decreases es, 1int,
{
    lemma_unsign_entries_at(es);
    lemma_unsign_entries_at(unsign_entries(es));
    assert forall|i: int| 0 <= i < es.len() implies attr_wf(#[trigger] unsign(es[i].1)) && unsign(unsign(es[i].1))
        == unsign(es[i].1) by {
        assert(decreases_to!(es => es[i]));
        assert(decreases_to!(es[i] => es[i].1));
        lemma_unsign_attr(es[i].1);
    }
    let u = unsign_entries(es);
    assert forall|i: int| 0 <= i < u.len() implies attr_wf(#[trigger] u[i].1) by {
        assert(u[i] == (es[i].0, unsign(es[i].1)));
    }
    assert(unsign_entries(u) =~= u);
}

/// Unsigning an item keeps it well-formed, and unsigning it again changes
/// nothing.
pub proof fn lemma_unsign_item(es: Seq<(Seq<char>, AttrV)>)
    requires
        entries_wf(es),
    ensures
        entries_wf(unsign_entries(es)),
        unsign_entries(unsign_entries(es)) == unsign_entries(es),
{
    lemma_unsign_entries(es);
}

proof fn lemma_unsign_plain(a: AttrV)
    ensures
        plain_convertible(a) ==> plain_convertible(unsign(a)),
    decreases a, 0int,
{
    match a {
        AttrV::L(v) => {
            assert(decreases_to!(a => a->L_0));
            lemma_unsign_plain_list(v);
        },
        AttrV::M(es) => {
            assert(decreases_to!(a => a->M_0));
            lemma_unsign_plain_entries(es);
        },
        _ => {},
    }
}

proof fn lemma_unsign_plain_list(v: Seq<AttrV>)
    ensures
        all_plain(v) ==> all_plain(unsign_list(v)),
    decreases v, 1int,
{
    if v.len() > 0 {
        let p = v.subrange(0, v.len() - 1);
        lemma_unsign_plain_list(p);
        assert(decreases_to!(v => v[v.len() - 1]));
        lemma_unsign_plain(v[v.len() - 1]);
        let u = unsign_list(v);
        assert(u.subrange(0, u.len() - 1) =~= unsign_list(p));
    }
}

/// Unsigning an item keeps what plain JSON can express of it.
pub proof fn lemma_unsign_plain_entries(es: Seq<(Seq<char>, AttrV)>)
    ensures
        item_plain_convertible(es) ==> item_plain_convertible(unsign_entries(es)),
    decreases es, 1int,
{
    if es.len() > 0 {
        let p = es.subrange(0, es.len() - 1);
        lemma_unsign_plain_entries(p);
        assert(decreases_to!(es => es[es.len() - 1]));
        assert(decreases_to!(es[es.len() - 1] => es[es.len() - 1].1));
        lemma_unsign_plain(es[es.len() - 1].1);
        let u = unsign_entries(es);
        assert(u.subrange(0, u.len() - 1) =~= unsign_entries(p));
    }
}

/// `rust_decimal` parses the text it prints for a decimal back to that
/// decimal, a zero unsigned (its parser clears the sign of a zero).
pub open spec fn decimals_read_back() -> bool {
    forall|n: Number|
        n.wf() ==> #[trigger] decimal_parse(decimal_text(n)) == Ok::<(bool, nat, nat), Seq<char>>(
            unsigned_zero(n).parts(),
        )
}

/// The standard base64 engine decodes what it encoded.
pub open spec fn base64_reads_back() -> bool {
    forall|b: Seq<u8>| #[trigger] base64_decode(base64_encode(b)) == Ok::<Seq<u8>, Seq<char>>(b)
}

/// The map made by storing each entry in turn, as a reader of JSON members
/// does (a later entry replacing an earlier one of the same name).
pub open spec fn fold_insert(xs: Seq<(Seq<char>, AttrV)>) -> Seq<(Seq<char>, AttrV)>
    decreases xs.len(),
{
    if xs.len() == 0 {
        Seq::empty()
    } else {
        map_insert(fold_insert(xs.drop_last()), xs.last().0, xs.last().1)
    }
}

proof fn lemma_number_parts(n: Number)
    ensures
        crate::item_json::number_of(n.parts()) == n,
{
}

// ---------------------------------------------------------------------------
// Sets and lists
// ---------------------------------------------------------------------------

proof fn lemma_strs_round_trip(ss: Seq<Seq<char>>)
    ensures
        strs_of(str_trees(ss)) == Ok::<Seq<Seq<char>>, Seq<char>>(ss),
    decreases ss.len(),
{
    if ss.len() == 0 {
        assert(ss =~= Seq::<Seq<char>>::empty());
    } else {
        lemma_strs_round_trip(ss.drop_last());
        assert(str_trees(ss).drop_last() =~= str_trees(ss.drop_last()));
        assert(ss.drop_last().push(ss.last()) =~= ss);
    }
}

proof fn lemma_nums_round_trip(ns: Seq<Number>, quoted: bool)
    requires
        decimals_read_back(),
        forall|i: int| 0 <= i < ns.len() ==> (#[trigger] ns[i]).wf(),
    ensures
        quoted ==> nums_of(num_strs(ns)) == Ok::<Seq<Number>, Seq<char>>(unsign_nums(ns)),
    decreases ns.len(),
{
    if ns.len() == 0 {
        assert(unsign_nums(ns) =~= Seq::<Number>::empty());
    } else {
        let p = ns.drop_last();
        assert forall|i: int| 0 <= i < p.len() implies (#[trigger] p[i]).wf() by {
            assert(p[i] == ns[i]);
        }
        lemma_nums_round_trip(p, quoted);
        assert(num_strs(ns).drop_last() =~= num_strs(p));
        assert(ns[ns.len() - 1].wf());
        assert(decimal_parse(decimal_text(ns.last())) == Ok::<(bool, nat, nat), Seq<char>>(
            unsigned_zero(ns.last()).parts(),
        ));
        lemma_number_parts(unsigned_zero(ns.last()));
        assert(unsign_nums(p).push(unsigned_zero(ns.last())) =~= unsign_nums(ns));
    }
}

proof fn lemma_blobs_round_trip(bs: Seq<Seq<u8>>)
    requires
        base64_reads_back(),
    ensures
        blobs_of(blob_trees(bs)) == Ok::<Seq<Seq<u8>>, Seq<char>>(bs),
    decreases bs.len(),
{
    if bs.len() == 0 {
        assert(bs =~= Seq::<Seq<u8>>::empty());
    } else {
        lemma_blobs_round_trip(bs.drop_last());
        assert(blob_trees(bs).drop_last() =~= blob_trees(bs.drop_last()));
        assert(base64_decode(base64_encode(bs.last())) == Ok::<Seq<u8>, Seq<char>>(bs.last()));
        assert(bs.drop_last().push(bs.last()) =~= bs);
    }
}

// ---------------------------------------------------------------------------
// Maps built entry by entry
// ---------------------------------------------------------------------------

/// Storing entries whose keys ascend, one after another, gives them back.
pub proof fn lemma_fold_ascending(es: Seq<(Seq<char>, AttrV)>)
    requires
        keys_sorted(es),
    ensures
        fold_insert(es) == es,
    decreases es.len(),
{
    if es.len() > 0 {
        let p = es.drop_last();
        assert(keys_sorted(p)) by {
            assert forall|i: int, j: int| 0 <= i < j < keys_of(p).len() implies crate::text::chars_lt(
                #[trigger] keys_of(p)[i],
                #[trigger] keys_of(p)[j],
            ) by {
                assert(keys_of(p)[i] == keys_of(es)[i] && keys_of(p)[j] == keys_of(es)[j]);
            }
        }
        lemma_fold_ascending(p);
        assert forall|j: int| 0 <= j < p.len() implies crate::text::chars_lt(
            #[trigger] p[j].0,
            es.last().0,
        ) by {
            assert(keys_of(es)[j] == p[j].0);
            assert(keys_of(es)[es.len() - 1] == es.last().0);
        }
        lemma_map_insert_at(p, es.last().0, es.last().1, p.len() as int);
        assert(p.insert(p.len() as int, (es.last().0, es.last().1)) =~= es);
    }
}

// ---------------------------------------------------------------------------
// Attributes
// ---------------------------------------------------------------------------

/// The typed JSON of a well-formed attribute reads back as that attribute.
pub proof fn lemma_typed_attr_round_trip(a: AttrV)
    requires
        attr_wf(a),
        decimals_read_back(),
        base64_reads_back(),
    ensures
        typed_attr(typed_tree(a)) == Ok::<AttrV, Seq<char>>(unsign(a)),
    decreases a,
{
    reveal_strlit("S");
    reveal_strlit("N");
    reveal_strlit("B");
    reveal_strlit("BOOL");
    reveal_strlit("NULL");
    reveal_strlit("L");
    reveal_strlit("M");
    reveal_strlit("SS");
    reveal_strlit("NS");
    reveal_strlit("BS");
    assert("N"@[0] != "S"@[0]);
    assert("B"@[0] != "S"@[0] && "B"@[0] != "N"@[0]);
    assert("BOOL"@.len() != "S"@.len() && "BOOL"@.len() != "N"@.len() && "BOOL"@.len() != "B"@.len());
    assert("NULL"@[0] != "S"@[0] && "NULL"@.len() != "N"@.len() && "NULL"@[0] != "B"@[0] && "NULL"@[0] != "BOOL"@[0]);
    assert("L"@[0] != "S"@[0] && "L"@[0] != "N"@[0] && "L"@[0] != "B"@[0] && "L"@[0] != "BOOL"@[0] && "L"@[0] != "NULL"@[0]);
    assert("M"@[0] != "S"@[0] && "M"@[0] != "N"@[0] && "M"@[0] != "B"@[0] && "M"@[0] != "BOOL"@[0] && "M"@[0] != "NULL"@[0] && "M"@[0] != "L"@[0]);
    assert("SS"@.len() != "S"@.len() && "SS"@[0] != "N"@[0] && "SS"@[0] != "B"@[0] && "SS"@[0] != "BOOL"@[0] && "SS"@[0] != "NULL"@[0] && "SS"@[0] != "L"@[0] && "SS"@[0] != "M"@[0]);
    assert("NS"@[0] != "S"@[0] && "NS"@.len() != "N"@.len() && "NS"@[0] != "B"@[0] && "NS"@[0] != "BOOL"@[0] && "NS"@[1] != "NULL"@[1] && "NS"@[0] != "L"@[0] && "NS"@[0] != "M"@[0] && "NS"@[0] != "SS"@[0]);
    assert("BS"@[0] != "S"@[0] && "BS"@[0] != "N"@[0] && "BS"@.len() != "B"@.len() && "BS"@.len() != "BOOL"@.len() && "BS"@[0] != "NULL"@[0] && "BS"@[0] != "L"@[0] && "BS"@[0] != "M"@[0] && "BS"@[0] != "SS"@[0] && "BS"@[0] != "NS"@[0]);
    match a {
        AttrV::S(s) => {},
        AttrV::N(n) => {
            assert(decimal_parse(decimal_text(n)) == Ok::<(bool, nat, nat), Seq<char>>(
                unsigned_zero(n).parts(),
            ));
            lemma_number_parts(unsigned_zero(n));
        },
        AttrV::B(b) => {
            assert(base64_decode(base64_encode(b)) == Ok::<Seq<u8>, Seq<char>>(b));
        },
        AttrV::BOOL(_) => {},
        AttrV::NULL => {},
        AttrV::L(v) => {
            assert forall|i: int| 0 <= i < v.len() implies attr_wf(#[trigger] v[i]) by {
                lemma_attr_wf_list(v, i);
            }
            assert(decreases_to!(a => a->L_0));
            lemma_typed_list_round_trip(v);
        },
        AttrV::M(es) => {
            lemma_attr_wf_map(es);
            assert(decreases_to!(a => a->M_0));
            lemma_typed_map_round_trip(es);
            lemma_unsign_entries_at(es);
            lemma_fold_ascending(unsign_entries(es));
        },
        AttrV::SS(ss) => {
            lemma_strs_round_trip(ss);
            lemma_strs_from_ascending(ss);
        },
        AttrV::NS(ns) => {
            lemma_nums_round_trip(ns, true);
            lemma_unsign_nums_sorted(ns);
            lemma_nums_from_ascending(unsign_nums(ns));
        },
        AttrV::BS(bs) => {
            lemma_blobs_round_trip(bs);
            lemma_blobs_from_ascending(bs);
        },
    }
}

proof fn lemma_typed_list_round_trip(v: Seq<AttrV>)
    requires
        forall|i: int| 0 <= i < v.len() ==> attr_wf(#[trigger] v[i]),

        decimals_read_back(),
        base64_reads_back(),
    ensures
        typed_list(typed_trees(v)) == Ok::<Seq<AttrV>, Seq<char>>(unsign_list(v)),
    decreases v,
{
    if v.len() == 0 {
        assert(unsign_list(v) =~= Seq::<AttrV>::empty());
    } else {
        let p = v.subrange(0, v.len() - 1);
        assert forall|i: int| 0 <= i < p.len() implies attr_wf(#[trigger] p[i]) by {
            assert(p[i] == v[i]);
        }
        lemma_typed_list_round_trip(p);
        assert(decreases_to!(v => v[v.len() - 1]));
        lemma_typed_attr_round_trip(v[v.len() - 1]);
        let t = typed_trees(v);
        assert(t.subrange(0, t.len() - 1) =~= typed_trees(p));
        assert(unsign_list(v) == unsign_list(p).push(unsign(v[v.len() - 1])));
    }
}

/// Reading the typed-JSON members of entries stores each entry in turn.
proof fn lemma_typed_map_round_trip(xs: Seq<(Seq<char>, AttrV)>)
    requires
        forall|i: int| 0 <= i < xs.len() ==> attr_wf(#[trigger] xs[i].1),
        decimals_read_back(),
        base64_reads_back(),
    ensures
        typed_map(typed_entries(xs)) == Ok::<Seq<(Seq<char>, AttrV)>, Seq<char>>(fold_insert(unsign_entries(xs))),
    decreases xs,
{
    if xs.len() > 0 {
        let p = xs.subrange(0, xs.len() - 1);
        assert forall|i: int| 0 <= i < p.len() implies attr_wf(#[trigger] p[i].1) by {
            assert(p[i] == xs[i]);
        }
        lemma_typed_map_round_trip(p);
        assert(decreases_to!(xs => xs[xs.len() - 1]));
        assert(decreases_to!(xs[xs.len() - 1] => xs[xs.len() - 1].1));
        lemma_typed_attr_round_trip(xs[xs.len() - 1].1);
        let t = typed_entries(xs);
        assert(t.subrange(0, t.len() - 1) =~= typed_entries(p));
        assert(xs.drop_last() =~= p);
        assert(unsign_entries(xs).drop_last() =~= unsign_entries(p));
        assert(unsign_entries(xs).last() == (xs[xs.len() - 1].0, unsign(xs[xs.len() - 1].1)));
    }
}

/// The plain JSON of a well-formed attribute that plain JSON can express
/// reads back as that attribute.
pub proof fn lemma_plain_attr_round_trip(a: AttrV)
    requires
        attr_wf(a),
        plain_convertible(a),
        decimals_read_back(),
    ensures
        plain_attr(plain_tree(a)) == Ok::<AttrV, Seq<char>>(unsign(a)),
    decreases a,
{
    match a {
        AttrV::N(n) => {
            assert(decimal_parse(decimal_text(n)) == Ok::<(bool, nat, nat), Seq<char>>(
                unsigned_zero(n).parts(),
            ));
            lemma_number_parts(unsigned_zero(n));
        },
        AttrV::L(v) => {
            assert forall|i: int| 0 <= i < v.len() implies attr_wf(#[trigger] v[i]) by {
                lemma_attr_wf_list(v, i);
            }
            assert(decreases_to!(a => a->L_0));
            lemma_plain_list_round_trip(v);
        },
        AttrV::M(es) => {
            lemma_attr_wf_map(es);
            assert(decreases_to!(a => a->M_0));
            lemma_plain_map_round_trip(es);
            lemma_unsign_entries_at(es);
            lemma_fold_ascending(unsign_entries(es));
        },
        _ => {},
    }
}

proof fn lemma_plain_list_round_trip(v: Seq<AttrV>)
    requires
        forall|i: int| 0 <= i < v.len() ==> attr_wf(#[trigger] v[i]),

        all_plain(v),
        decimals_read_back(),
    ensures
        plain_list(plain_trees(v)) == Ok::<Seq<AttrV>, Seq<char>>(unsign_list(v)),
    decreases v,
{
    if v.len() == 0 {
        assert(unsign_list(v) =~= Seq::<AttrV>::empty());
    } else {
        let p = v.subrange(0, v.len() - 1);
        assert forall|i: int| 0 <= i < p.len() implies attr_wf(#[trigger] p[i]) by {
            assert(p[i] == v[i]);
        }
        lemma_plain_list_round_trip(p);
        assert(decreases_to!(v => v[v.len() - 1]));
        lemma_plain_attr_round_trip(v[v.len() - 1]);
        let t = plain_trees(v);
        assert(t.subrange(0, t.len() - 1) =~= plain_trees(p));
        assert(unsign_list(v) == unsign_list(p).push(unsign(v[v.len() - 1])));
    }
}

/// Reading the plain-JSON members of entries stores each entry in turn.
proof fn lemma_plain_map_round_trip(xs: Seq<(Seq<char>, AttrV)>)
    requires
        forall|i: int| 0 <= i < xs.len() ==> attr_wf(#[trigger] xs[i].1),
        item_plain_convertible(xs),
        decimals_read_back(),
    ensures
        plain_map(plain_entries(xs)) == Ok::<Seq<(Seq<char>, AttrV)>, Seq<char>>(fold_insert(unsign_entries(xs))),
    decreases xs,
{
    if xs.len() > 0 {
        let p = xs.subrange(0, xs.len() - 1);
        assert forall|i: int| 0 <= i < p.len() implies attr_wf(#[trigger] p[i].1) by {
            assert(p[i] == xs[i]);
        }
        lemma_plain_map_round_trip(p);
        assert(decreases_to!(xs => xs[xs.len() - 1]));
        assert(decreases_to!(xs[xs.len() - 1] => xs[xs.len() - 1].1));
        lemma_plain_attr_round_trip(xs[xs.len() - 1].1);
        let t = plain_entries(xs);
        assert(t.subrange(0, t.len() - 1) =~= plain_entries(p));
        assert(xs.drop_last() =~= p);
        assert(unsign_entries(xs).drop_last() =~= unsign_entries(p));
        assert(unsign_entries(xs).last() == (xs[xs.len() - 1].0, unsign(xs[xs.len() - 1].1)));
    }
}

// ---------------------------------------------------------------------------
// Items: the members are read back in whatever order they were written
// ---------------------------------------------------------------------------

/// Entries that agree: two entries with the same key have the same value.
pub open spec fn consistent(xs: Seq<(Seq<char>, AttrV)>) -> bool {
    forall|i: int, j: int|
        0 <= i < xs.len() && 0 <= j < xs.len() && #[trigger] xs[i].0 == #[trigger] xs[j].0
            ==> xs[i].1 == xs[j].1
}

/// Storing agreeing entries one after another gives a map with ascending
/// keys that holds each of them, and nothing else.
proof fn lemma_fold_facts(xs: Seq<(Seq<char>, AttrV)>)
    requires
        consistent(xs),
    ensures
        keys_sorted(fold_insert(xs)),
        forall|k: Seq<char>| has_key(fold_insert(xs), k) <==> has_key(xs, k),
        forall|i: int|
            0 <= i < xs.len() ==> lookup(fold_insert(xs), #[trigger] xs[i].0) == Some(xs[i].1),
    decreases xs.len(),
{
    if xs.len() == 0 {
        assert(keys_of(fold_insert(xs)) =~= Seq::<Seq<char>>::empty());
    } else {
        let p = xs.drop_last();
        let last = xs.last();
        assert forall|i: int, j: int|
            0 <= i < p.len() && 0 <= j < p.len() && #[trigger] p[i].0 == #[trigger] p[j].0
                implies p[i].1 == p[j].1 by {
            assert(p[i] == xs[i] && p[j] == xs[j]);
        }
        lemma_fold_facts(p);
        lemma_map_insert(fold_insert(p), last.0, last.1);
        assert forall|k: Seq<char>| has_key(fold_insert(xs), k) <==> has_key(xs, k) by {
            if has_key(p, k) {
                let i = choose|i: int| 0 <= i < p.len() && (#[trigger] p[i]).0 == k;
                assert(xs[i].0 == k);
            }
            if k == last.0 {
                assert(xs[xs.len() - 1].0 == k);
            }
            if has_key(xs, k) {
                let i = choose|i: int| 0 <= i < xs.len() && (#[trigger] xs[i]).0 == k;
                if i < xs.len() - 1 {
                    assert(p[i].0 == k);
                }
            }
        }
        assert forall|i: int| 0 <= i < xs.len() implies lookup(
            fold_insert(xs),
            #[trigger] xs[i].0,
        ) == Some(xs[i].1) by {
            if xs[i].0 == last.0 {
                assert(xs[xs.len() - 1].0 == xs[i].0);
            } else {
                assert(p[i] == xs[i]);
            }
        }
    }
}

/// A lookup past the first entry of a map with ascending keys.
proof fn lemma_lookup_rest(a: Seq<(Seq<char>, AttrV)>, k: Seq<char>)
    requires
        keys_sorted(a),
        a.len() > 0,
    ensures
        keys_sorted(a.drop_first()),
        lookup(a.drop_first(), k) == if k == a[0].0 {
            None
        } else {
            lookup(a, k)
        },
{
    let r = a.drop_first();
    assert forall|i: int, j: int| 0 <= i < j < keys_of(r).len() implies chars_lt(
        #[trigger] keys_of(r)[i],
        #[trigger] keys_of(r)[j],
    ) by {
        assert(keys_of(r)[i] == keys_of(a)[i + 1] && keys_of(r)[j] == keys_of(a)[j + 1]);
    }
    if has_key(r, k) {
        let i = choose|i: int| 0 <= i < r.len() && (#[trigger] r[i]).0 == k;
        assert(r[i] == a[i + 1]);
        lemma_lookup_at(r, i);
        lemma_lookup_at(a, i + 1);
        if k == a[0].0 {
            assert(chars_lt(keys_of(a)[0], keys_of(a)[i + 1]));
            lemma_chars_lt_irreflexive(k);
        }
    } else if has_key(a, k) {
        let i = choose|i: int| 0 <= i < a.len() && (#[trigger] a[i]).0 == k;
        if i > 0 {
            assert(r[i - 1] == a[i]);
        }
    }
}

/// Two maps with ascending keys that find the same under every key are
/// equal.
pub(crate) proof fn lemma_sorted_unique(a: Seq<(Seq<char>, AttrV)>, b: Seq<(Seq<char>, AttrV)>)
    requires
        keys_sorted(a),
        keys_sorted(b),
        forall|k: Seq<char>| lookup(a, k) == lookup(b, k),
    ensures
        a == b,
    decreases a.len(),
{
    if a.len() == 0 {
        if b.len() > 0 {
            lemma_lookup_at(b, 0);
            assert(lookup(a, b[0].0) is None);
        }
        assert(a =~= b);
    } else {
        lemma_lookup_at(a, 0);
        let k0 = a[0].0;
        assert(lookup(b, k0) is Some);
        let j = choose|j: int| 0 <= j < b.len() && (#[trigger] b[j]).0 == k0;
        lemma_lookup_at(b, 0);
        let b0 = b[0].0;
        assert(lookup(a, b0) is Some);
        let i = choose|i: int| 0 <= i < a.len() && (#[trigger] a[i]).0 == b0;
        if j > 0 {
            assert(chars_lt(keys_of(b)[0], keys_of(b)[j]));
            if i == 0 {
                lemma_chars_lt_irreflexive(k0);
            } else {
                assert(chars_lt(keys_of(a)[0], keys_of(a)[i]));
                lemma_chars_lt_asymmetric(k0, b0);
            }
        }
        assert(b0 == k0);
        lemma_lookup_at(b, 0);
        assert(a[0] == b[0]);
        assert forall|k: Seq<char>| lookup(a.drop_first(), k) == lookup(b.drop_first(), k) by {
            lemma_lookup_rest(a, k);
            lemma_lookup_rest(b, k);
        }
        lemma_lookup_rest(a, k0);
        lemma_lookup_rest(b, k0);
        lemma_sorted_unique(a.drop_first(), b.drop_first());
        assert(a =~= seq![a[0]] + a.drop_first());
        assert(b =~= seq![b[0]] + b.drop_first());
    }
}

/// The key entries are entries of the item, and cover its keys among the
/// names.
proof fn lemma_key_entries(es: Seq<(Seq<char>, AttrV)>, names: Seq<Seq<char>>)
    requires
        keys_sorted(es),
    ensures
        forall|i: int|
            0 <= i < key_entries(es, names).len() ==> lookup(es, #[trigger] key_entries(es, names)[i].0)
                == Some(key_entries(es, names)[i].1),
        forall|k: Seq<char>| names.contains(k) && has_key(es, k) ==> has_key(key_entries(es, names), k),
    decreases names.len(),
{
    if names.len() > 0 {
        let p = names.drop_last();
        lemma_key_entries(es, p);
        let ke = key_entries(es, names);
        let kp = key_entries(es, p);
        assert forall|k: Seq<char>| names.contains(k) && has_key(es, k) implies has_key(ke, k) by {
            let j = choose|j: int| 0 <= j < names.len() && names[j] == k;
            if j < names.len() - 1 {
                assert(p[j] == k);
                let i = choose|i: int| 0 <= i < kp.len() && (#[trigger] kp[i]).0 == k;
                assert(ke[i] == kp[i]);
            } else {
                let i = choose|i: int| 0 <= i < es.len() && (#[trigger] es[i]).0 == k;
                lemma_lookup_at(es, i);
                assert(ke[ke.len() - 1].0 == k);
            }
        }
    }
}

/// The other entries are entries of the item, and cover its keys outside
/// the names.
proof fn lemma_other_entries(es: Seq<(Seq<char>, AttrV)>, names: Seq<Seq<char>>)
    ensures
        forall|i: int|
            0 <= i < other_entries(es, names).len() ==> es.contains(
                #[trigger] other_entries(es, names)[i],
            ),
        forall|j: int|
            0 <= j < es.len() && !names.contains(#[trigger] es[j].0) ==> has_key(
                other_entries(es, names),
                es[j].0,
            ),
    decreases es.len(),
{
    if es.len() > 0 {
        let p = es.drop_last();
        lemma_other_entries(p, names);
        let oe = other_entries(es, names);
        let op = other_entries(p, names);
        assert forall|i: int| 0 <= i < oe.len() implies es.contains(#[trigger] oe[i]) by {
            if i < op.len() {
                assert(oe[i] == op[i]);
                let j = choose|j: int| 0 <= j < p.len() && p[j] == op[i];
                assert(es[j] == p[j]);
            } else {
                assert(oe[i] == es[es.len() - 1]);
            }
        }
        assert forall|j: int| 0 <= j < es.len() && !names.contains(#[trigger] es[j].0) implies has_key(
            oe,
            es[j].0,
        ) by {
            if j < es.len() - 1 {
                assert(p[j] == es[j]);
                let i = choose|i: int| 0 <= i < op.len() && (#[trigger] op[i]).0 == es[j].0;
                assert(oe[i] == op[i]);
            } else {
                assert(oe[oe.len() - 1] == es[j]);
            }
        }
    }
}

/// Storing the entries of an item in the order they are written gives the
/// item back.
proof fn lemma_fold_ordered(es: Seq<(Seq<char>, AttrV)>, schema: KeySchemaType)
    requires
        keys_sorted(es),
    ensures
        fold_insert(ordered_entries(es, schema)) == es,
        forall|i: int| 0 <= i < ordered_entries(es, schema).len() ==> es.contains(
            #[trigger] ordered_entries(es, schema)[i],
        ),
{
    let names = key_names(schema);
    let ke = key_entries(es, names);
    let oe = other_entries(es, names);
    let o = ordered_entries(es, schema);
    lemma_key_entries(es, names);
    lemma_other_entries(es, names);
    // every written entry is what the item stores under its key
    assert forall|i: int| 0 <= i < o.len() implies lookup(es, #[trigger] o[i].0) == Some(o[i].1) by {
        if i < ke.len() {
            assert(o[i] == ke[i]);
        } else {
            assert(o[i] == oe[i - ke.len()]);
            let j = choose|j: int| 0 <= j < es.len() && es[j] == oe[i - ke.len()];
            lemma_lookup_at(es, j);
        }
    }
    assert forall|i: int| 0 <= i < o.len() implies es.contains(#[trigger] o[i]) by {
        assert(lookup(es, o[i].0) == Some(o[i].1));
        let j = choose|j: int| 0 <= j < es.len() && (#[trigger] es[j]).0 == o[i].0;
        lemma_lookup_at(es, j);
    }
    assert forall|i: int, j: int|
        0 <= i < o.len() && 0 <= j < o.len() && #[trigger] o[i].0 == #[trigger] o[j].0
            implies o[i].1 == o[j].1 by {
        assert(lookup(es, o[i].0) == Some(o[i].1));
        assert(lookup(es, o[j].0) == Some(o[j].1));
    }
    lemma_fold_facts(o);
    let f = fold_insert(o);
    assert forall|k: Seq<char>| lookup(f, k) == lookup(es, k) by {
        if has_key(o, k) {
            let i = choose|i: int| 0 <= i < o.len() && (#[trigger] o[i]).0 == k;
            assert(lookup(f, o[i].0) == Some(o[i].1));
        } else {
            assert(!has_key(f, k));
            if has_key(es, k) {
                let j = choose|j: int| 0 <= j < es.len() && (#[trigger] es[j]).0 == k;
                if names.contains(k) {
                    let i = choose|i: int| 0 <= i < ke.len() && (#[trigger] ke[i]).0 == k;
                    assert(o[i] == ke[i]);
                } else {
                    let i = choose|i: int| 0 <= i < oe.len() && (#[trigger] oe[i]).0 == es[j].0;
                    assert(o[ke.len() + i] == oe[i]);
                }
            }
        }
    }
    lemma_sorted_unique(f, es);
}

/// Storing the written entries, each unsigned, gives the item unsigned.
proof fn lemma_fold_ordered_unsigned(es: Seq<(Seq<char>, AttrV)>, schema: KeySchemaType)
    requires
        keys_sorted(es),
    ensures
        fold_insert(unsign_entries(ordered_entries(es, schema))) == unsign_entries(es),
{
    let o = ordered_entries(es, schema);
    lemma_fold_ordered(es, schema);
    let u = unsign_entries(o);
    let ue = unsign_entries(es);
    lemma_unsign_entries_at(o);
    lemma_unsign_entries_at(es);
    assert forall|i: int, j: int|
        0 <= i < o.len() && 0 <= j < o.len() && #[trigger] o[i].0 == #[trigger] o[j].0 implies o[i].1 == o[j].1 by {
        let a = choose|a: int| 0 <= a < es.len() && es[a] == o[i];
        let b = choose|b: int| 0 <= b < es.len() && es[b] == o[j];
        lemma_lookup_at(es, a);
        lemma_lookup_at(es, b);
    }
    assert forall|i: int, j: int|
        0 <= i < u.len() && 0 <= j < u.len() && #[trigger] u[i].0 == #[trigger] u[j].0 implies u[i].1 == u[j].1 by {
        assert(u[i] == (o[i].0, unsign(o[i].1)));
        assert(u[j] == (o[j].0, unsign(o[j].1)));
        assert(o[i].0 == o[j].0);
    }
    lemma_fold_facts(o);
    lemma_fold_facts(u);
    let f = fold_insert(u);
    assert(keys_sorted(ue));
    assert forall|k: Seq<char>| lookup(f, k) == lookup(ue, k) by {
        if has_key(o, k) {
            let i = choose|i: int| 0 <= i < o.len() && (#[trigger] o[i]).0 == k;
            assert(u[i] == (o[i].0, unsign(o[i].1)));
            assert(lookup(f, u[i].0) == Some(u[i].1));
            let b = choose|b: int| 0 <= b < es.len() && es[b] == o[i];
            assert(ue[b] == (es[b].0, unsign(es[b].1)));
            lemma_lookup_at(ue, b);
        } else {
            assert(!has_key(u, k)) by {
                if has_key(u, k) {
                    let i = choose|i: int| 0 <= i < u.len() && (#[trigger] u[i]).0 == k;
                    assert(u[i] == (o[i].0, unsign(o[i].1)));
                }
            }
            assert(!has_key(es, k));
            assert(!has_key(ue, k)) by {
                if has_key(ue, k) {
                    let b = choose|b: int| 0 <= b < ue.len() && (#[trigger] ue[b]).0 == k;
                    assert(ue[b] == (es[b].0, unsign(es[b].1)));
                }
            }
            assert(!has_key(f, k));
        }
    }
    lemma_sorted_unique(f, ue);
}

/// What the typed writer writes for an item, the typed reader reads back as
/// the same item: the typed JSON members of a well-formed item, in the order
/// they are written, make the item again, each zero unsigned (see
/// [`unsign`]; a negative zero reads back as the equal unsigned zero).
pub proof fn lemma_typed_item_round_trip(es: Seq<(Seq<char>, AttrV)>, schema: KeySchemaType)
    requires
        entries_wf(es),
        decimals_read_back(),
        base64_reads_back(),
    ensures
        typed_map(typed_entries(ordered_entries(es, schema))) == Ok::<
            Seq<(Seq<char>, AttrV)>,
            Seq<char>,
        >(unsign_entries(es)),
{
    let o = ordered_entries(es, schema);
    lemma_fold_ordered(es, schema);
    assert forall|i: int| 0 <= i < o.len() implies attr_wf(#[trigger] o[i].1) by {
        let j = choose|j: int| 0 <= j < es.len() && es[j] == o[i];
        assert(attr_wf(es[j].1));
    }
    lemma_typed_map_round_trip(o);
    lemma_fold_ordered_unsigned(es, schema);
}

/// What the plain writer writes for an item that plain JSON can express, the
/// plain reader reads back as the same item, each zero unsigned (see
/// [`unsign`]).
pub proof fn lemma_plain_item_round_trip(es: Seq<(Seq<char>, AttrV)>, schema: KeySchemaType)
    requires
        entries_wf(es),
        item_plain_convertible(es),
        decimals_read_back(),
    ensures
        plain_map(plain_entries(ordered_entries(es, schema))) == Ok::<
            Seq<(Seq<char>, AttrV)>,
            Seq<char>,
        >(unsign_entries(es)),
{
    let o = ordered_entries(es, schema);
    lemma_fold_ordered(es, schema);
    lemma_plain_all(es);
    assert forall|i: int| 0 <= i < o.len() implies attr_wf(#[trigger] o[i].1) && plain_convertible(
        o[i].1,
    ) by {
        let j = choose|j: int| 0 <= j < es.len() && es[j] == o[i];
        assert(attr_wf(es[j].1));
        assert(plain_convertible(es[j].1));
    }
    lemma_all_plain_entries(o);
    lemma_plain_map_round_trip(o);
    lemma_fold_ordered_unsigned(es, schema);
}

/// Plain convertibility of an item is that of each attribute.
proof fn lemma_plain_all(es: Seq<(Seq<char>, AttrV)>)
    requires
        item_plain_convertible(es),
    ensures
        forall|i: int| 0 <= i < es.len() ==> plain_convertible(#[trigger] es[i].1),
    decreases es.len(),
{
    if es.len() > 0 {
        let p = es.subrange(0, es.len() - 1);
        lemma_plain_all(p);
        assert forall|i: int| 0 <= i < es.len() implies plain_convertible(#[trigger] es[i].1) by {
            if i < es.len() - 1 {
                assert(p[i] == es[i]);
            }
        }
    }
}

/// Entries each of which plain JSON can express make an item it can express.
proof fn lemma_all_plain_entries(es: Seq<(Seq<char>, AttrV)>)
    requires
        forall|i: int| 0 <= i < es.len() ==> plain_convertible(#[trigger] es[i].1),
    ensures
        item_plain_convertible(es),
    decreases es.len(),
{
    if es.len() > 0 {
        let p = es.subrange(0, es.len() - 1);
        assert forall|i: int| 0 <= i < p.len() implies plain_convertible(#[trigger] p[i].1) by {
            assert(p[i] == es[i]);
        }
        lemma_all_plain_entries(p);
    }
}

} // verus!
