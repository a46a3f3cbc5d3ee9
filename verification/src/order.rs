//! The order of attribute values.
//!
//! Attributes are ordered first by kind, in the order the variants of
//! [`Attribute`] are declared (S, N, B, BOOL, NULL, L, M, SS, NS, BS), then
//! within a kind: strings and binaries by bytes, numbers by value, `false`
//! before `true`, lists, maps (as key/value entries) and sets
//! lexicographically by their elements.
use vstd::prelude::*;

use crate::data::{AttrV, Attribute, attr_view, blobs_view, list_view, pairs_view};
use crate::number::{compare_numbers, lemma_num_order, num_order, Number};
use crate::text::{
    chars_lt, chars_of, compare_chars, lemma_chars_lt_asymmetric, lemma_chars_lt_irreflexive,
    lemma_chars_lt_total, strs_view,
};

verus! {

broadcast use {crate::data_view::lemma_list_view, crate::data_view::lemma_pairs_view};

/// The position of an attribute's kind in the order of kinds.
pub open spec fn rank(a: AttrV) -> int {
    match a {
        AttrV::S(_) => 0,
        AttrV::N(_) => 1,
        AttrV::B(_) => 2,
        AttrV::BOOL(_) => 3,
        AttrV::NULL => 4,
        AttrV::L(_) => 5,
        AttrV::M(_) => 6,
        AttrV::SS(_) => 7,
        AttrV::NS(_) => 8,
        AttrV::BS(_) => 9,
    }
}

/// Three-way order of character sequences by code point.
pub open spec fn chars_order(a: Seq<char>, b: Seq<char>) -> int {
    if chars_lt(a, b) {
        -1
    } else if a == b {
        0
    } else {
        1
    }
}

/// Byte strings in lexicographic order.
pub open spec fn bytes_order(a: Seq<u8>, b: Seq<u8>) -> int
    decreases a.len(),
{
    if a.len() == 0 {
        if b.len() == 0 {
            0
        } else {
            -1
        }
    } else if b.len() == 0 {
        1
    } else if a[0] < b[0] {
        -1
    } else if a[0] > b[0] {
        1
    } else {
        bytes_order(a.subrange(1, a.len() as int), b.subrange(1, b.len() as int))
    }
}

/// Sequences of strings in lexicographic order.
pub open spec fn strs_order(a: Seq<Seq<char>>, b: Seq<Seq<char>>) -> int
    decreases a.len(),
{
    if a.len() == 0 {
        if b.len() == 0 {
            0
        } else {
            -1
        }
    } else if b.len() == 0 {
        1
    } else if chars_order(a[0], b[0]) != 0 {
        chars_order(a[0], b[0])
    } else {
        strs_order(a.subrange(1, a.len() as int), b.subrange(1, b.len() as int))
    }
}

/// Sequences of numbers in lexicographic order, by value.
pub open spec fn nums_order(a: Seq<Number>, b: Seq<Number>) -> int
    decreases a.len(),
{
    if a.len() == 0 {
        if b.len() == 0 {
            0
        } else {
            -1
        }
    } else if b.len() == 0 {
        1
    } else if num_order(a[0], b[0]) != 0 {
        num_order(a[0], b[0])
    } else {
        nums_order(a.subrange(1, a.len() as int), b.subrange(1, b.len() as int))
    }
}

/// Sequences of byte strings in lexicographic order.
pub open spec fn blobs_order(a: Seq<Seq<u8>>, b: Seq<Seq<u8>>) -> int
    decreases a.len(),
{
    if a.len() == 0 {
        if b.len() == 0 {
            0
        } else {
            -1
        }
    } else if b.len() == 0 {
        1
    } else if bytes_order(a[0], b[0]) != 0 {
        bytes_order(a[0], b[0])
    } else {
        blobs_order(a.subrange(1, a.len() as int), b.subrange(1, b.len() as int))
    }
}

/// Three-way order of attribute values: -1, 0 or 1.
pub open spec fn attr_order(a: AttrV, b: AttrV) -> int
    decreases a,
{
    if rank(a) < rank(b) {
        -1
    } else if rank(a) > rank(b) {
        1
    } else {
        match a {
            AttrV::S(x) => chars_order(x, b->S_0),
            AttrV::N(x) => num_order(x, b->N_0),
            AttrV::B(x) => bytes_order(x, b->B_0),
            AttrV::BOOL(x) => if x == b->BOOL_0 {
                0
            } else if !x {
                -1
            } else {
                1
            },
            AttrV::NULL => 0,
            AttrV::L(x) => list_order(x, b->L_0),
            AttrV::M(x) => entries_order(x, b->M_0),
            AttrV::SS(x) => strs_order(x, b->SS_0),
            AttrV::NS(x) => nums_order(x, b->NS_0),
            AttrV::BS(x) => blobs_order(x, b->BS_0),
        }
    }
}

/// Lists of attribute values in lexicographic order.
pub open spec fn list_order(a: Seq<AttrV>, b: Seq<AttrV>) -> int
    decreases a,
{
    if a.len() == 0 {
        if b.len() == 0 {
            0
        } else {
            -1
        }
    } else if b.len() == 0 {
        1
    } else if attr_order(a[0], b[0]) != 0 {
        attr_order(a[0], b[0])
    } else {
        list_order(a.subrange(1, a.len() as int), b.subrange(1, b.len() as int))
    }
}

/// Map entries in lexicographic order: by key, then by value.
pub open spec fn entries_order(a: Seq<(Seq<char>, AttrV)>, b: Seq<(Seq<char>, AttrV)>) -> int
    decreases a,
{
    if a.len() == 0 {
        if b.len() == 0 {
            0
        } else {
            -1
        }
    } else if b.len() == 0 {
        1
    } else if chars_order(a[0].0, b[0].0) != 0 {
        chars_order(a[0].0, b[0].0)
    } else if attr_order(a[0].1, b[0].1) != 0 {
        attr_order(a[0].1, b[0].1)
    } else {
        entries_order(a.subrange(1, a.len() as int), b.subrange(1, b.len() as int))
    }
}

// ---------------------------------------------------------------------------
// Antisymmetry
// ---------------------------------------------------------------------------

proof fn lemma_chars_order_antisym(a: Seq<char>, b: Seq<char>)
    ensures
        chars_order(a, b) == -chars_order(b, a),
{
    lemma_chars_lt_total(a, b);
    if chars_lt(a, b) {
        lemma_chars_lt_asymmetric(a, b);
    }
    if chars_lt(b, a) {
        lemma_chars_lt_asymmetric(b, a);
    }
    if a == b {
        lemma_chars_lt_irreflexive(a);
    }
}

proof fn lemma_bytes_order_antisym(a: Seq<u8>, b: Seq<u8>)
    ensures
        bytes_order(a, b) == -bytes_order(b, a),
    decreases a.len(),
{
    if a.len() > 0 && b.len() > 0 && a[0] == b[0] {
        lemma_bytes_order_antisym(a.subrange(1, a.len() as int), b.subrange(1, b.len() as int));
    }
}

proof fn lemma_strs_order_antisym(a: Seq<Seq<char>>, b: Seq<Seq<char>>)
    ensures
        strs_order(a, b) == -strs_order(b, a),
    decreases a.len(),
{
    if a.len() > 0 && b.len() > 0 {
        lemma_chars_order_antisym(a[0], b[0]);
        lemma_strs_order_antisym(a.subrange(1, a.len() as int), b.subrange(1, b.len() as int));
    }
}

proof fn lemma_nums_order_antisym(a: Seq<Number>, b: Seq<Number>)
    ensures
        nums_order(a, b) == -nums_order(b, a),
    decreases a.len(),
{
    if a.len() > 0 && b.len() > 0 {
        lemma_num_order(a[0], b[0]);
        lemma_nums_order_antisym(a.subrange(1, a.len() as int), b.subrange(1, b.len() as int));
    }
}

proof fn lemma_blobs_order_antisym(a: Seq<Seq<u8>>, b: Seq<Seq<u8>>)
    ensures
        blobs_order(a, b) == -blobs_order(b, a),
    decreases a.len(),
{
    if a.len() > 0 && b.len() > 0 {
        lemma_bytes_order_antisym(a[0], b[0]);
        lemma_blobs_order_antisym(a.subrange(1, a.len() as int), b.subrange(1, b.len() as int));
    }
}

/// Swapping the operands of the attribute order negates it.
pub proof fn lemma_attr_order_antisym(a: AttrV, b: AttrV)
    ensures
        attr_order(a, b) == -attr_order(b, a),
    decreases a,
{
    if rank(a) == rank(b) {
        match a {
            AttrV::S(x) => lemma_chars_order_antisym(x, b->S_0),
            AttrV::N(x) => lemma_num_order(x, b->N_0),
            AttrV::B(x) => lemma_bytes_order_antisym(x, b->B_0),
            AttrV::L(x) => lemma_list_order_antisym(x, b->L_0),
            AttrV::M(x) => lemma_entries_order_antisym(x, b->M_0),
            AttrV::SS(x) => lemma_strs_order_antisym(x, b->SS_0),
            AttrV::NS(x) => lemma_nums_order_antisym(x, b->NS_0),
            AttrV::BS(x) => lemma_blobs_order_antisym(x, b->BS_0),
            _ => {},
        }
    }
}

proof fn lemma_list_order_antisym(a: Seq<AttrV>, b: Seq<AttrV>)
    ensures
        list_order(a, b) == -list_order(b, a),
    decreases a,
{
    if a.len() > 0 && b.len() > 0 {
        lemma_attr_order_antisym(a[0], b[0]);
        lemma_list_order_antisym(a.subrange(1, a.len() as int), b.subrange(1, b.len() as int));
    }
}

proof fn lemma_entries_order_antisym(a: Seq<(Seq<char>, AttrV)>, b: Seq<(Seq<char>, AttrV)>)
    ensures
        entries_order(a, b) == -entries_order(b, a),
    decreases a,
{
    if a.len() > 0 && b.len() > 0 {
        lemma_chars_order_antisym(a[0].0, b[0].0);
        lemma_attr_order_antisym(a[0].1, b[0].1);
        lemma_entries_order_antisym(
            a.subrange(1, a.len() as int),
            b.subrange(1, b.len() as int),
        );
    }
}

// ---------------------------------------------------------------------------
// Executable comparisons
// ---------------------------------------------------------------------------

/// Compares two strings by bytes: -1, 0 or 1.
pub fn compare_strings(a: &String, b: &String) -> (r: i8)
    ensures
        r as int == chars_order(a@, b@),
{
    let x = chars_of(a.as_str());
    let y = chars_of(b.as_str());
    let c = compare_chars(&x, &y);
    if c < 0 {
        -1
    } else if c == 0 {
        0
    } else {
        proof {
            lemma_chars_lt_asymmetric(b@, a@);
        }
        1
    }
}

/// Compares two byte strings lexicographically: -1, 0 or 1.
pub fn compare_bytes(a: &Vec<u8>, b: &Vec<u8>) -> (r: i8)
    ensures
        r as int == bytes_order(a@, b@),
{
    let mut k: usize = 0;
    assert(a@.skip(0) =~= a@);
    assert(b@.skip(0) =~= b@);
    while k < a.len() && k < b.len()
        invariant
            k <= a.len(),
            k <= b.len(),
            bytes_order(a@, b@) == bytes_order(a@.skip(k as int), b@.skip(k as int)),
        decreases a.len() - k,
    {
        assert(a@.skip(k as int)[0] == a@[k as int]);
        assert(b@.skip(k as int)[0] == b@[k as int]);
        if a[k] < b[k] {
            return -1;
        }
        if a[k] > b[k] {
            return 1;
        }
        assert(a@.skip(k as int).subrange(1, a@.skip(k as int).len() as int) =~= a@.skip(k + 1));
        assert(b@.skip(k as int).subrange(1, b@.skip(k as int).len() as int) =~= b@.skip(k + 1));
        k += 1;
    }
    if a.len() == k && b.len() == k {
        0
    } else if a.len() == k {
        -1
    } else {
        1
    }
}

/// Compares two attribute values in [`attr_order`]: -1, 0 or 1.
pub fn compare_attributes(a: &Attribute, b: &Attribute) -> (r: i8)
    requires
        crate::data::attr_wf(a@),
        crate::data::attr_wf(b@),
    ensures
        r as int == attr_order(a@, b@),
    decreases a,
{
    let ra = rank_of(a);
    let rb = rank_of(b);
    if ra < rb {
        return -1;
    }
    if ra > rb {
        return 1;
    }
    match (a, b) {
        (Attribute::S(x), Attribute::S(y)) => compare_strings(x, y),
        (Attribute::N(x), Attribute::N(y)) => compare_numbers(x, y),
        (Attribute::B(x), Attribute::B(y)) => compare_bytes(x, y),
        (Attribute::BOOL(x), Attribute::BOOL(y)) => {
            if *x == *y {
                0
            } else if !*x {
                -1
            } else {
                1
            }
        },
        (Attribute::NULL, Attribute::NULL) => 0,
        (Attribute::L(x), Attribute::L(y)) => {
            let ghost xs = list_view(x@);
            let ghost ys = list_view(y@);
            let mut k: usize = 0;
            assert(xs.skip(0) =~= xs);
            assert(ys.skip(0) =~= ys);
            assert(attr_order(a@, b@) == list_order(xs, ys));
            while k < x.len() && k < y.len()
                invariant
                    *a is L && a->L_0 == *x,
                    crate::data::attr_wf(a@),
                    crate::data::attr_wf(b@),
                    *b is L && b->L_0 == *y,
                    xs == list_view(x@),
                    ys == list_view(y@),
                    k <= x.len(),
                    k <= y.len(),
                    list_order(xs, ys) == list_order(xs.skip(k as int), ys.skip(k as int)),
                    attr_order(a@, b@) == list_order(xs, ys),
                decreases x.len() - k,
            {
                proof {
                    assert(decreases_to!(*x => x@[k as int]));
                    assert(decreases_to!(*a => a->L_0));
                    assert(xs[k as int] == attr_view(x@[k as int]));
                    assert(ys[k as int] == attr_view(y@[k as int]));
                    assert(crate::data::attr_wf(xs[k as int]));
                    assert(crate::data::attr_wf(ys[k as int]));
                }
                let c = compare_attributes(&x[k], &y[k]);
                assert(xs.skip(k as int)[0] == xs[k as int]);
                assert(ys.skip(k as int)[0] == ys[k as int]);
                if c != 0 {
                    return c;
                }
                assert(xs.skip(k as int).subrange(1, xs.skip(k as int).len() as int) =~= xs.skip(
                    k + 1,
                ));
                assert(ys.skip(k as int).subrange(1, ys.skip(k as int).len() as int) =~= ys.skip(
                    k + 1,
                ));
                k += 1;
            }
            if x.len() == k && y.len() == k {
                0
            } else if x.len() == k {
                -1
            } else {
                1
            }
        },
        (Attribute::M(x), Attribute::M(y)) => {
            let ghost xs = pairs_view(x.entries@);
            let ghost ys = pairs_view(y.entries@);
            let mut k: usize = 0;
            assert(xs.skip(0) =~= xs);
            assert(ys.skip(0) =~= ys);
            assert(attr_order(a@, b@) == entries_order(xs, ys));
            while k < x.entries.len() && k < y.entries.len()
                invariant
                    *a is M && a->M_0 == *x,
                    *b is M && b->M_0 == *y,
                    crate::data::attr_wf(a@),
                    crate::data::attr_wf(b@),
                    xs == pairs_view(x.entries@),
                    ys == pairs_view(y.entries@),
                    k <= x.entries.len(),
                    k <= y.entries.len(),
                    entries_order(xs, ys) == entries_order(xs.skip(k as int), ys.skip(k as int)),
                    attr_order(a@, b@) == entries_order(xs, ys),
                decreases x.entries.len() - k,
            {
                assert(xs.skip(k as int)[0] == xs[k as int]);
                assert(ys.skip(k as int)[0] == ys[k as int]);
                let ck = compare_strings(&x.entries[k].0, &y.entries[k].0);
                if ck != 0 {
                    return ck;
                }
                proof {
                    assert(decreases_to!(x.entries => x.entries@[k as int]));
                    assert(decreases_to!(*a => a->M_0));
                    assert(decreases_to!(*x => x.entries));
                    assert(decreases_to!(x.entries@[k as int] => x.entries@[k as int].1));
                    assert(xs[k as int].1 == attr_view(x.entries@[k as int].1));
                    assert(ys[k as int].1 == attr_view(y.entries@[k as int].1));
                    assert(crate::data::attr_wf(xs[k as int].1));
                    assert(crate::data::attr_wf(ys[k as int].1));
                }
                let cv = compare_attributes(&x.entries[k].1, &y.entries[k].1);
                if cv != 0 {
                    return cv;
                }
                assert(xs.skip(k as int).subrange(1, xs.skip(k as int).len() as int) =~= xs.skip(
                    k + 1,
                ));
                assert(ys.skip(k as int).subrange(1, ys.skip(k as int).len() as int) =~= ys.skip(
                    k + 1,
                ));
                k += 1;
            }
            if x.entries.len() == k && y.entries.len() == k {
                0
            } else if x.entries.len() == k {
                -1
            } else {
                1
            }
        },
        (Attribute::SS(x), Attribute::SS(y)) => {
            let ghost xs = strs_view(x@);
            let ghost ys = strs_view(y@);
            let mut k: usize = 0;
            assert(xs.skip(0) =~= xs);
            assert(ys.skip(0) =~= ys);
            assert(attr_order(a@, b@) == strs_order(xs, ys));
            while k < x.len() && k < y.len()
                invariant
                    xs == strs_view(x@),
                    ys == strs_view(y@),
                    k <= x.len(),
                    k <= y.len(),
                    strs_order(xs, ys) == strs_order(xs.skip(k as int), ys.skip(k as int)),
                    attr_order(a@, b@) == strs_order(xs, ys),
                decreases x.len() - k,
            {
                assert(xs.skip(k as int)[0] == xs[k as int]);
                assert(ys.skip(k as int)[0] == ys[k as int]);
                let c = compare_strings(&x[k], &y[k]);
                if c != 0 {
                    return c;
                }
                assert(xs.skip(k as int).subrange(1, xs.skip(k as int).len() as int) =~= xs.skip(
                    k + 1,
                ));
                assert(ys.skip(k as int).subrange(1, ys.skip(k as int).len() as int) =~= ys.skip(
                    k + 1,
                ));
                k += 1;
            }
            if x.len() == k && y.len() == k {
                0
            } else if x.len() == k {
                -1
            } else {
                1
            }
        },
        (Attribute::NS(x), Attribute::NS(y)) => {
            let mut k: usize = 0;
            assert(x@.skip(0) =~= x@);
            assert(y@.skip(0) =~= y@);
            assert(attr_order(a@, b@) == nums_order(x@, y@));
            while k < x.len() && k < y.len()
                invariant
                    crate::data::numbers_sorted(x@),
                    crate::data::numbers_sorted(y@),
                    k <= x.len(),
                    k <= y.len(),
                    nums_order(x@, y@) == nums_order(x@.skip(k as int), y@.skip(k as int)),
                    attr_order(a@, b@) == nums_order(x@, y@),
                decreases x.len() - k,
            {
                assert(x@.skip(k as int)[0] == x@[k as int]);
                assert(y@.skip(k as int)[0] == y@[k as int]);
                let c = compare_numbers(&x[k], &y[k]);
                if c != 0 {
                    return c;
                }
                assert(x@.skip(k as int).subrange(1, x@.skip(k as int).len() as int) =~= x@.skip(
                    k + 1,
                ));
                assert(y@.skip(k as int).subrange(1, y@.skip(k as int).len() as int) =~= y@.skip(
                    k + 1,
                ));
                k += 1;
            }
            if x.len() == k && y.len() == k {
                0
            } else if x.len() == k {
                -1
            } else {
                1
            }
        },
        (Attribute::BS(x), Attribute::BS(y)) => {
            let ghost xs = blobs_view(x@);
            let ghost ys = blobs_view(y@);
            let mut k: usize = 0;
            assert(xs.skip(0) =~= xs);
            assert(ys.skip(0) =~= ys);
            assert(attr_order(a@, b@) == blobs_order(xs, ys));
            while k < x.len() && k < y.len()
                invariant
                    xs == blobs_view(x@),
                    ys == blobs_view(y@),
                    k <= x.len(),
                    k <= y.len(),
                    blobs_order(xs, ys) == blobs_order(xs.skip(k as int), ys.skip(k as int)),
                    attr_order(a@, b@) == blobs_order(xs, ys),
                decreases x.len() - k,
            {
                assert(xs.skip(k as int)[0] == xs[k as int]);
                assert(ys.skip(k as int)[0] == ys[k as int]);
                let c = compare_bytes(&x[k], &y[k]);
                if c != 0 {
                    return c;
                }
                assert(xs.skip(k as int).subrange(1, xs.skip(k as int).len() as int) =~= xs.skip(
                    k + 1,
                ));
                assert(ys.skip(k as int).subrange(1, ys.skip(k as int).len() as int) =~= ys.skip(
                    k + 1,
                ));
                k += 1;
            }
            if x.len() == k && y.len() == k {
                0
            } else if x.len() == k {
                -1
            } else {
                1
            }
        },
        _ => {
            proof {
                assert(false);
            }
            0
        },
    }
}

/// The position of an attribute's kind (see [`rank`]).
fn rank_of(a: &Attribute) -> (r: u8)
    ensures
        r as int == rank(a@),
{
    match a {
        Attribute::S(_) => 0,
        Attribute::N(_) => 1,
        Attribute::B(_) => 2,
        Attribute::BOOL(_) => 3,
        Attribute::NULL => 4,
        Attribute::L(_) => 5,
        Attribute::M(_) => 6,
        Attribute::SS(_) => 7,
        Attribute::NS(_) => 8,
        Attribute::BS(_) => 9,
    }
}

// ---------------------------------------------------------------------------
// Strings sort in dictionary order
// ---------------------------------------------------------------------------

/// Whether `a` comes before `b` in dictionary order: `a` is a proper prefix
/// of `b`, or at the first position where they differ `a`'s character has
/// the lower code point. Lengths play no other part.
pub open spec fn lexicographically_before(a: Seq<char>, b: Seq<char>) -> bool {
    exists|k: int|
        0 <= k <= a.len() && k <= b.len() && #[trigger] a.take(k) == b.take(k) && (
        (k == a.len() && k < b.len()) || (k < a.len() && k < b.len() && (a[k] as int) < (b[k] as int)))
}

proof fn lemma_chars_lt_lexicographic(a: Seq<char>, b: Seq<char>)
    ensures
        chars_lt(a, b) <==> lexicographically_before(a, b),
    decreases a.len(),
{
    if a.len() == 0 {
        if b.len() > 0 {
            assert(a.take(0) =~= b.take(0));
        }
    } else if b.len() == 0 {
    } else if a[0] != b[0] {
        if (a[0] as int) < (b[0] as int) {
            assert(a.take(0) =~= b.take(0));
        }
        if lexicographically_before(a, b) {
            let k = choose|k: int|
                0 <= k <= a.len() && k <= b.len() && #[trigger] a.take(k) == b.take(k) && (
                (k == a.len() && k < b.len()) || (k < a.len() && k < b.len() && (a[k] as int) < (b[k] as int)));
            if k > 0 {
                assert(a.take(k)[0] == b.take(k)[0]);
            }
        }
    } else {
        let a1 = a.drop_first();
        let b1 = b.drop_first();
        lemma_chars_lt_lexicographic(a1, b1);
        if lexicographically_before(a1, b1) {
            let k = choose|k: int|
                0 <= k <= a1.len() && k <= b1.len() && #[trigger] a1.take(k) == b1.take(k) && (
                (k == a1.len() && k < b1.len()) || (k < a1.len() && k < b1.len() && (a1[k] as int) < (b1[k] as int)));
            assert(a.take(k + 1) =~= seq![a[0]] + a1.take(k));
            assert(b.take(k + 1) =~= seq![b[0]] + b1.take(k));
            assert(a.take(k + 1) == b.take(k + 1));
        }
        if lexicographically_before(a, b) {
            let k = choose|k: int|
                0 <= k <= a.len() && k <= b.len() && #[trigger] a.take(k) == b.take(k) && (
                (k == a.len() && k < b.len()) || (k < a.len() && k < b.len() && (a[k] as int) < (b[k] as int)));
            assert(k > 0);
            assert(a1.take(k - 1) =~= a.take(k).drop_first());
            assert(b1.take(k - 1) =~= b.take(k).drop_first());
            assert(a1.take(k - 1) == b1.take(k - 1));
        }
    }
}

/// String attributes are ordered as their texts are in a dictionary: one
/// comes first exactly when its text is lexicographically before the other's
/// (`"apple"` before `"kiwi"`, whatever their lengths), and they tie exactly
/// when the texts are equal.
pub proof fn lemma_string_attributes_in_dictionary_order(a: Seq<char>, b: Seq<char>)
    ensures
        attr_order(AttrV::S(a), AttrV::S(b)) < 0 <==> lexicographically_before(a, b),
        attr_order(AttrV::S(a), AttrV::S(b)) == 0 <==> a == b,
        attr_order(AttrV::S(a), AttrV::S(b)) > 0 <==> lexicographically_before(b, a),
{
    lemma_chars_lt_lexicographic(a, b);
    lemma_chars_lt_lexicographic(b, a);
    lemma_chars_lt_irreflexive(a);
    lemma_chars_lt_total(a, b);
    if chars_lt(a, b) {
        lemma_chars_lt_asymmetric(a, b);
    }
}

} // verus!
