//! Ordered sets as DynamoDB's set types hold them: strings and binaries in
//! ascending byte order, numbers in ascending value. Adding an element that
//! the set already holds (for numbers: one of equal value) leaves the set as
//! it is.
use vstd::prelude::*;

use crate::data::{bytes_sorted, numbers_sorted, blobs_view};
use crate::number::{compare_numbers, lemma_num_lt_transitive, lemma_num_order, num_eq, num_lt, Number};
use crate::order::{bytes_order, compare_bytes, compare_strings};
use crate::text::{chars_lt, strictly_sorted, strs_view};

verus! {

// ---------------------------------------------------------------------------
// Specifications
// ---------------------------------------------------------------------------

/// A string set with `x` added.
pub open spec fn strs_insert(ss: Seq<Seq<char>>, x: Seq<char>) -> Seq<Seq<char>>
    decreases ss.len(),
{
    if ss.len() == 0 {
        seq![x]
    } else if ss[0] == x {
        ss
    } else if chars_lt(x, ss[0]) {
        seq![x] + ss
    } else {
        seq![ss[0]] + strs_insert(ss.drop_first(), x)
    }
}

/// A number set with `x` added, unless it holds a number of equal value.
pub open spec fn nums_insert(ns: Seq<Number>, x: Number) -> Seq<Number>
    decreases ns.len(),
{
    if ns.len() == 0 {
        seq![x]
    } else if num_eq(ns[0], x) {
        ns
    } else if num_lt(x, ns[0]) {
        seq![x] + ns
    } else {
        seq![ns[0]] + nums_insert(ns.drop_first(), x)
    }
}

/// A binary set with `x` added.
pub open spec fn blobs_insert(bs: Seq<Seq<u8>>, x: Seq<u8>) -> Seq<Seq<u8>>
    decreases bs.len(),
{
    if bs.len() == 0 {
        seq![x]
    } else if bs[0] == x {
        bs
    } else if bytes_order(x, bs[0]) < 0 {
        seq![x] + bs
    } else {
        seq![bs[0]] + blobs_insert(bs.drop_first(), x)
    }
}

/// The string set holding the elements of `xs`.
pub open spec fn strs_from(xs: Seq<Seq<char>>) -> Seq<Seq<char>>
    decreases xs.len(),
{
    if xs.len() == 0 {
        Seq::empty()
    } else {
        strs_insert(strs_from(xs.drop_last()), xs.last())
    }
}

/// The number set holding the values of `xs` (the first of equal values).
pub open spec fn nums_from(xs: Seq<Number>) -> Seq<Number>
    decreases xs.len(),
{
    if xs.len() == 0 {
        Seq::empty()
    } else {
        nums_insert(nums_from(xs.drop_last()), xs.last())
    }
}

/// The binary set holding the elements of `xs`.
pub open spec fn blobs_from(xs: Seq<Seq<u8>>) -> Seq<Seq<u8>>
    decreases xs.len(),
{
    if xs.len() == 0 {
        Seq::empty()
    } else {
        blobs_insert(blobs_from(xs.drop_last()), xs.last())
    }
}

// ---------------------------------------------------------------------------
// Byte order facts
// ---------------------------------------------------------------------------

pub proof fn lemma_bytes_order_zero(a: Seq<u8>, b: Seq<u8>)
    ensures
        bytes_order(a, b) == 0 <==> a == b,
        -1 <= bytes_order(a, b) <= 1,
    decreases a.len(),
{
    if a.len() > 0 && b.len() > 0 && a[0] == b[0] {
        let (ra, rb) = (a.subrange(1, a.len() as int), b.subrange(1, b.len() as int));
        lemma_bytes_order_zero(ra, rb);
        if ra == rb {
            assert(a =~= seq![a[0]] + ra);
            assert(b =~= seq![b[0]] + rb);
        }
    } else if a.len() == 0 && b.len() == 0 {
        assert(a =~= b);
    } else if a.len() > 0 && b.len() > 0 {
        assert(a[0] != b[0]);
    }
}

pub proof fn lemma_bytes_order_antisym(a: Seq<u8>, b: Seq<u8>)
    ensures
        bytes_order(a, b) == -bytes_order(b, a),
    decreases a.len(),
{
    if a.len() > 0 && b.len() > 0 && a[0] == b[0] {
        lemma_bytes_order_antisym(a.subrange(1, a.len() as int), b.subrange(1, b.len() as int));
    }
}

pub proof fn lemma_bytes_order_transitive(a: Seq<u8>, b: Seq<u8>, c: Seq<u8>)
    requires
        bytes_order(a, b) < 0,
        bytes_order(b, c) < 0,
    ensures
        bytes_order(a, c) < 0,
    decreases a.len(),
{
    if a.len() > 0 && b.len() > 0 && c.len() > 0 && a[0] == b[0] && b[0] == c[0] {
        lemma_bytes_order_transitive(
            a.subrange(1, a.len() as int),
            b.subrange(1, b.len() as int),
            c.subrange(1, c.len() as int),
        );
    }
}

// ---------------------------------------------------------------------------
// Insertion at the found position
// ---------------------------------------------------------------------------

proof fn lemma_strs_insert_at(ss: Seq<Seq<char>>, x: Seq<char>, i: int)
    requires
        0 <= i <= ss.len(),
        forall|j: int| 0 <= j < i ==> chars_lt(#[trigger] ss[j], x),
        i == ss.len() || !chars_lt(ss[i], x),
    ensures
        strs_insert(ss, x) == if i < ss.len() && ss[i] == x {
            ss
        } else {
            ss.insert(i, x)
        },
    decreases i,
{
    if i == 0 {
        if ss.len() > 0 && ss[0] != x {
            crate::text::lemma_chars_lt_total(ss[0], x);
            assert(ss.insert(0, x) =~= seq![x] + ss);
        }
        if ss.len() == 0 {
            assert(ss.insert(0, x) =~= seq![x]);
        }
    } else {
        crate::text::lemma_chars_lt_irreflexive(x);
        crate::text::lemma_chars_lt_asymmetric(ss[0], x);
        let rest = ss.drop_first();
        assert forall|j: int| 0 <= j < i - 1 implies chars_lt(#[trigger] rest[j], x) by {
            assert(rest[j] == ss[j + 1]);
        }
        lemma_strs_insert_at(rest, x, i - 1);
        if i < ss.len() && ss[i] == x {
            assert(seq![ss[0]] + rest =~= ss);
        } else {
            assert(seq![ss[0]] + rest.insert(i - 1, x) =~= ss.insert(i, x));
        }
    }
}

proof fn lemma_nums_insert_at(ns: Seq<Number>, x: Number, i: int)
    requires
        0 <= i <= ns.len(),
        forall|j: int| 0 <= j < i ==> num_lt(#[trigger] ns[j], x),
        i == ns.len() || !num_lt(ns[i], x),
    ensures
        nums_insert(ns, x) == if i < ns.len() && num_eq(ns[i], x) {
            ns
        } else {
            ns.insert(i, x)
        },
    decreases i,
{
    if i == 0 {
        if ns.len() > 0 {
            lemma_num_order(ns[0], x);
            if !num_eq(ns[0], x) {
                assert(ns.insert(0, x) =~= seq![x] + ns);
            }
        } else {
            assert(ns.insert(0, x) =~= seq![x]);
        }
    } else {
        lemma_num_order(ns[0], x);
        let rest = ns.drop_first();
        assert forall|j: int| 0 <= j < i - 1 implies num_lt(#[trigger] rest[j], x) by {
            assert(rest[j] == ns[j + 1]);
        }
        lemma_nums_insert_at(rest, x, i - 1);
        if i < ns.len() && num_eq(ns[i], x) {
            assert(seq![ns[0]] + rest =~= ns);
        } else {
            assert(seq![ns[0]] + rest.insert(i - 1, x) =~= ns.insert(i, x));
        }
    }
}

proof fn lemma_blobs_insert_at(bs: Seq<Seq<u8>>, x: Seq<u8>, i: int)
    requires
        0 <= i <= bs.len(),
        forall|j: int| 0 <= j < i ==> bytes_order(#[trigger] bs[j], x) < 0,
        i == bs.len() || bytes_order(bs[i], x) >= 0,
    ensures
        blobs_insert(bs, x) == if i < bs.len() && bs[i] == x {
            bs
        } else {
            bs.insert(i, x)
        },
    decreases i,
{
    if i == 0 {
        if bs.len() > 0 {
            lemma_bytes_order_zero(bs[0], x);
            lemma_bytes_order_antisym(bs[0], x);
            if bs[0] != x {
                assert(bs.insert(0, x) =~= seq![x] + bs);
            }
        } else {
            assert(bs.insert(0, x) =~= seq![x]);
        }
    } else {
        lemma_bytes_order_zero(bs[0], x);
        lemma_bytes_order_antisym(bs[0], x);
        let rest = bs.drop_first();
        assert forall|j: int| 0 <= j < i - 1 implies bytes_order(#[trigger] rest[j], x) < 0 by {
            assert(rest[j] == bs[j + 1]);
        }
        lemma_blobs_insert_at(rest, x, i - 1);
        if i < bs.len() && bs[i] == x {
            assert(seq![bs[0]] + rest =~= bs);
        } else {
            assert(seq![bs[0]] + rest.insert(i - 1, x) =~= bs.insert(i, x));
        }
    }
}

// ---------------------------------------------------------------------------
// Sortedness is kept
// ---------------------------------------------------------------------------

pub proof fn lemma_strs_insert_sorted(ss: Seq<Seq<char>>, x: Seq<char>)
    requires
        strictly_sorted(ss),
    ensures
        strictly_sorted(strs_insert(ss, x)),
        forall|y: Seq<char>| #[trigger] strs_insert(ss, x).contains(y) <==> (ss.contains(y) || y == x),
    decreases ss.len(),
{
    let r = strs_insert(ss, x);
    if ss.len() == 0 {
        assert(r.contains(x)) by { assert(r[0] == x); }
    } else if ss[0] == x {
        assert(ss.contains(x)) by { assert(ss[0] == x); }
    } else if chars_lt(x, ss[0]) {
        assert forall|a: int, b: int| 0 <= a < b < r.len() implies chars_lt(#[trigger] r[a], #[trigger] r[b]) by {
            if a == 0 {
                if b > 1 {
                    crate::text::lemma_chars_lt_transitive(x, ss[0], ss[b - 1]);
                }
            } else {
                assert(r[a] == ss[a - 1] && r[b] == ss[b - 1]);
            }
        }
        assert forall|y: Seq<char>| r.contains(y) <==> (ss.contains(y) || y == x) by {
            if ss.contains(y) {
                let j = choose|j: int| 0 <= j < ss.len() && ss[j] == y;
                assert(r[j + 1] == y);
            }
            if y == x {
                assert(r[0] == y);
            }
            if r.contains(y) {
                let j = choose|j: int| 0 <= j < r.len() && r[j] == y;
                if j > 0 {
                    assert(ss[j - 1] == y);
                }
            }
        }
    } else {
        let rest = ss.drop_first();
        assert(strictly_sorted(rest)) by {
            assert forall|a: int, b: int| 0 <= a < b < rest.len() implies chars_lt(#[trigger] rest[a], #[trigger] rest[b]) by {
                assert(rest[a] == ss[a + 1] && rest[b] == ss[b + 1]);
            }
        }
        lemma_strs_insert_sorted(rest, x);
        let t = strs_insert(rest, x);
        crate::text::lemma_chars_lt_total(ss[0], x);
        assert forall|a: int, b: int| 0 <= a < b < r.len() implies chars_lt(#[trigger] r[a], #[trigger] r[b]) by {
            if a == 0 {
                assert(r[b] == t[b - 1]);
                assert(t.contains(t[b - 1]));
                if rest.contains(t[b - 1]) {
                    let j = choose|j: int| 0 <= j < rest.len() && rest[j] == t[b - 1];
                    assert(ss[j + 1] == t[b - 1]);
                }
            } else {
                assert(r[a] == t[a - 1] && r[b] == t[b - 1]);
            }
        }
        assert forall|y: Seq<char>| r.contains(y) <==> (ss.contains(y) || y == x) by {
            if ss.contains(y) {
                let j = choose|j: int| 0 <= j < ss.len() && ss[j] == y;
                if j == 0 {
                    assert(r[0] == y);
                } else {
                    assert(rest[j - 1] == y);
                    assert(t.contains(y));
                    let k = choose|k: int| 0 <= k < t.len() && t[k] == y;
                    assert(r[k + 1] == y);
                }
            }
            if y == x {
                assert(t.contains(y));
                let k = choose|k: int| 0 <= k < t.len() && t[k] == y;
                assert(r[k + 1] == y);
            }
            if r.contains(y) {
                let j = choose|j: int| 0 <= j < r.len() && r[j] == y;
                if j == 0 {
                    assert(ss[0] == y);
                }
                if j > 0 {
                    assert(t[j - 1] == y);
                    assert(t.contains(y));
                    if rest.contains(y) {
                        let k = choose|k: int| 0 <= k < rest.len() && rest[k] == y;
                        assert(ss[k + 1] == y);
                    }
                }
            }
        }
    }
}

pub proof fn lemma_nums_insert_sorted(ns: Seq<Number>, x: Number)
    requires
        numbers_sorted(ns),
        x.wf(),
    ensures
        numbers_sorted(nums_insert(ns, x)),
        forall|y: Number| #[trigger] nums_insert(ns, x).contains(y) ==> (ns.contains(y) || y == x),
        exists|i: int| 0 <= i < nums_insert(ns, x).len() && num_eq(#[trigger] nums_insert(ns, x)[i], x),
    decreases ns.len(),
{
    let r = nums_insert(ns, x);
    if ns.len() == 0 {
        assert(num_eq(r[0], x));
    } else if num_eq(ns[0], x) {
        assert(num_eq(r[0], x));
    } else if num_lt(x, ns[0]) {
        assert(num_eq(r[0], x));
        assert forall|a: int, b: int| 0 <= a < b < r.len() implies num_lt(#[trigger] r[a], #[trigger] r[b]) by {
            if a == 0 {
                if b > 1 {
                    lemma_num_lt_transitive(x, ns[0], ns[b - 1]);
                }
            } else {
                assert(r[a] == ns[a - 1] && r[b] == ns[b - 1]);
            }
        }
        assert forall|y: Number| #[trigger] r.contains(y) implies (ns.contains(y) || y == x) by {
            let j = choose|j: int| 0 <= j < r.len() && r[j] == y;
            if j > 0 {
                assert(ns[j - 1] == y);
            }
        }
        assert forall|i: int| 0 <= i < r.len() implies (#[trigger] r[i]).wf() by {
            if i > 0 {
                assert(r[i] == ns[i - 1]);
            }
        }
    } else {
        let rest = ns.drop_first();
        assert(numbers_sorted(rest)) by {
            assert forall|a: int, b: int| 0 <= a < b < rest.len() implies num_lt(#[trigger] rest[a], #[trigger] rest[b]) by {
                assert(rest[a] == ns[a + 1] && rest[b] == ns[b + 1]);
            }
            assert forall|a: int| 0 <= a < rest.len() implies (#[trigger] rest[a]).wf() by {
                assert(rest[a] == ns[a + 1]);
            }
        }
        lemma_nums_insert_sorted(rest, x);
        let t = nums_insert(rest, x);
        lemma_num_order(ns[0], x);
        let k = choose|k: int| 0 <= k < t.len() && num_eq(#[trigger] t[k], x);
        assert(num_eq(r[k + 1], x));
        assert forall|a: int, b: int| 0 <= a < b < r.len() implies num_lt(#[trigger] r[a], #[trigger] r[b]) by {
            if a == 0 {
                assert(r[b] == t[b - 1]);
                assert(t.contains(t[b - 1]));
                if rest.contains(t[b - 1]) {
                    let j = choose|j: int| 0 <= j < rest.len() && rest[j] == t[b - 1];
                    assert(ns[j + 1] == t[b - 1]);
                }
            } else {
                assert(r[a] == t[a - 1] && r[b] == t[b - 1]);
            }
        }
        assert forall|y: Number| #[trigger] r.contains(y) implies (ns.contains(y) || y == x) by {
            let j = choose|j: int| 0 <= j < r.len() && r[j] == y;
            if j > 0 {
                assert(t[j - 1] == y);
                assert(t.contains(y));
                if rest.contains(y) {
                    let m = choose|m: int| 0 <= m < rest.len() && rest[m] == y;
                    assert(ns[m + 1] == y);
                }
            }
        }
        assert forall|i: int| 0 <= i < r.len() implies (#[trigger] r[i]).wf() by {
            if i > 0 {
                assert(r[i] == t[i - 1]);
            }
        }
    }
}

pub proof fn lemma_blobs_insert_sorted(bs: Seq<Seq<u8>>, x: Seq<u8>)
    requires
        bytes_sorted(bs),
    ensures
        bytes_sorted(blobs_insert(bs, x)),
        forall|y: Seq<u8>| #[trigger] blobs_insert(bs, x).contains(y) <==> (bs.contains(y) || y == x),
    decreases bs.len(),
{
    let r = blobs_insert(bs, x);
    if bs.len() == 0 {
        assert(r.contains(x)) by { assert(r[0] == x); }
    } else if bs[0] == x {
        assert(bs.contains(x)) by { assert(bs[0] == x); }
    } else if bytes_order(x, bs[0]) < 0 {
        assert forall|a: int, b: int| 0 <= a < b < r.len() implies crate::data::bytes_lt(#[trigger] r[a], #[trigger] r[b]) by {
            if a == 0 {
                lemma_bytes_lt_order(x, bs[0]);
                if b > 1 {
                    lemma_bytes_lt_order(bs[0], bs[b - 1]);
                    lemma_bytes_order_transitive(x, bs[0], bs[b - 1]);
                    lemma_bytes_lt_order(x, bs[b - 1]);
                }
            } else {
                assert(r[a] == bs[a - 1] && r[b] == bs[b - 1]);
            }
        }
        assert forall|y: Seq<u8>| r.contains(y) <==> (bs.contains(y) || y == x) by {
            if bs.contains(y) {
                let j = choose|j: int| 0 <= j < bs.len() && bs[j] == y;
                assert(r[j + 1] == y);
            }
            if y == x {
                assert(r[0] == y);
            }
            if r.contains(y) {
                let j = choose|j: int| 0 <= j < r.len() && r[j] == y;
                if j > 0 {
                    assert(bs[j - 1] == y);
                }
            }
        }
    } else {
        let rest = bs.drop_first();
        assert(bytes_sorted(rest)) by {
            assert forall|a: int, b: int| 0 <= a < b < rest.len() implies crate::data::bytes_lt(#[trigger] rest[a], #[trigger] rest[b]) by {
                assert(rest[a] == bs[a + 1] && rest[b] == bs[b + 1]);
            }
        }
        lemma_blobs_insert_sorted(rest, x);
        let t = blobs_insert(rest, x);
        lemma_bytes_order_zero(x, bs[0]);
        lemma_bytes_order_antisym(x, bs[0]);
        lemma_bytes_lt_order(bs[0], x);
        assert forall|a: int, b: int| 0 <= a < b < r.len() implies crate::data::bytes_lt(#[trigger] r[a], #[trigger] r[b]) by {
            if a == 0 {
                assert(r[b] == t[b - 1]);
                assert(t.contains(t[b - 1]));
                if rest.contains(t[b - 1]) {
                    let j = choose|j: int| 0 <= j < rest.len() && rest[j] == t[b - 1];
                    assert(bs[j + 1] == t[b - 1]);
                }
            } else {
                assert(r[a] == t[a - 1] && r[b] == t[b - 1]);
            }
        }
        assert forall|y: Seq<u8>| r.contains(y) <==> (bs.contains(y) || y == x) by {
            if bs.contains(y) {
                let j = choose|j: int| 0 <= j < bs.len() && bs[j] == y;
                if j == 0 {
                    assert(r[0] == y);
                } else {
                    assert(rest[j - 1] == y);
                    assert(t.contains(y));
                    let k = choose|k: int| 0 <= k < t.len() && t[k] == y;
                    assert(r[k + 1] == y);
                }
            }
            if y == x {
                assert(t.contains(y));
                let k = choose|k: int| 0 <= k < t.len() && t[k] == y;
                assert(r[k + 1] == y);
            }
            if r.contains(y) {
                let j = choose|j: int| 0 <= j < r.len() && r[j] == y;
                if j == 0 {
                    assert(bs[0] == y);
                }
                if j > 0 {
                    assert(t[j - 1] == y);
                    assert(t.contains(y));
                    if rest.contains(y) {
                        let k = choose|k: int| 0 <= k < rest.len() && rest[k] == y;
                        assert(bs[k + 1] == y);
                    }
                }
            }
        }
    }
}

/// `bytes_lt` is the strict part of `bytes_order`.
pub proof fn lemma_bytes_lt_order(a: Seq<u8>, b: Seq<u8>)
    ensures
        crate::data::bytes_lt(a, b) <==> bytes_order(a, b) < 0,
    decreases a.len(),
{
    if a.len() > 0 && b.len() > 0 && a[0] == b[0] {
        assert(a.drop_first() =~= a.subrange(1, a.len() as int));
        assert(b.drop_first() =~= b.subrange(1, b.len() as int));
        lemma_bytes_lt_order(a.drop_first(), b.drop_first());
    }
}

pub proof fn lemma_strs_from_sorted(xs: Seq<Seq<char>>)
    ensures
        strictly_sorted(strs_from(xs)),
        forall|y: Seq<char>| strs_from(xs).contains(y) <==> xs.contains(y),
    decreases xs.len(),
{
    if xs.len() > 0 {
        lemma_strs_from_sorted(xs.drop_last());
        lemma_strs_insert_sorted(strs_from(xs.drop_last()), xs.last());
        assert forall|y: Seq<char>| strs_from(xs).contains(y) <==> xs.contains(y) by {
            if xs.contains(y) {
                let j = choose|j: int| 0 <= j < xs.len() && xs[j] == y;
                if j < xs.len() - 1 {
                    assert(xs.drop_last()[j] == y);
                }
            }
            if xs.drop_last().contains(y) {
                let j = choose|j: int| 0 <= j < xs.drop_last().len() && xs.drop_last()[j] == y;
                assert(xs[j] == y);
            }
        }
    }
}

pub proof fn lemma_nums_from_sorted(xs: Seq<Number>)
    requires
        forall|i: int| 0 <= i < xs.len() ==> (#[trigger] xs[i]).wf(),
    ensures
        numbers_sorted(nums_from(xs)),
    decreases xs.len(),
{
    if xs.len() > 0 {
        lemma_nums_from_sorted(xs.drop_last());
        lemma_nums_insert_sorted(nums_from(xs.drop_last()), xs.last());
    }
}

pub proof fn lemma_blobs_from_sorted(xs: Seq<Seq<u8>>)
    ensures
        bytes_sorted(blobs_from(xs)),
        forall|y: Seq<u8>| blobs_from(xs).contains(y) <==> xs.contains(y),
    decreases xs.len(),
{
    if xs.len() > 0 {
        lemma_blobs_from_sorted(xs.drop_last());
        lemma_blobs_insert_sorted(blobs_from(xs.drop_last()), xs.last());
        assert forall|y: Seq<u8>| blobs_from(xs).contains(y) <==> xs.contains(y) by {
            if xs.contains(y) {
                let j = choose|j: int| 0 <= j < xs.len() && xs[j] == y;
                if j < xs.len() - 1 {
                    assert(xs.drop_last()[j] == y);
                }
            }
            if xs.drop_last().contains(y) {
                let j = choose|j: int| 0 <= j < xs.drop_last().len() && xs.drop_last()[j] == y;
                assert(xs[j] == y);
            }
        }
    }
}

/// Building a string set from strings already ascending gives them back.
pub proof fn lemma_strs_from_ascending(ss: Seq<Seq<char>>)
    requires
        strictly_sorted(ss),
    ensures
        strs_from(ss) == ss,
    decreases ss.len(),
{
    if ss.len() > 0 {
        let p = ss.drop_last();
        assert forall|i: int, j: int| 0 <= i < j < p.len() implies chars_lt(
            #[trigger] p[i],
            #[trigger] p[j],
        ) by {
            assert(p[i] == ss[i] && p[j] == ss[j]);
        }
        lemma_strs_from_ascending(p);
        assert forall|j: int| 0 <= j < p.len() implies chars_lt(#[trigger] p[j], ss.last()) by {
            assert(p[j] == ss[j]);
        }
        lemma_strs_insert_at(p, ss.last(), p.len() as int);
        assert(p.insert(p.len() as int, ss.last()) =~= ss);
    }
}

/// Building a number set from numbers already ascending gives them back.
pub proof fn lemma_nums_from_ascending(ns: Seq<Number>)
    requires
        numbers_sorted(ns),
    ensures
        nums_from(ns) == ns,
    decreases ns.len(),
{
    if ns.len() > 0 {
        let p = ns.drop_last();
        assert forall|i: int| 0 <= i < p.len() implies (#[trigger] p[i]).wf() by {
            assert(p[i] == ns[i]);
        }
        assert forall|i: int, j: int| 0 <= i < j < p.len() implies num_lt(
            #[trigger] p[i],
            #[trigger] p[j],
        ) by {
            assert(p[i] == ns[i] && p[j] == ns[j]);
        }
        lemma_nums_from_ascending(p);
        assert forall|j: int| 0 <= j < p.len() implies num_lt(#[trigger] p[j], ns.last()) by {
            assert(p[j] == ns[j]);
        }
        lemma_nums_insert_at(p, ns.last(), p.len() as int);
        assert(p.insert(p.len() as int, ns.last()) =~= ns);
    }
}

/// Building a binary set from byte strings already ascending gives them back.
pub proof fn lemma_blobs_from_ascending(bs: Seq<Seq<u8>>)
    requires
        bytes_sorted(bs),
    ensures
        blobs_from(bs) == bs,
    decreases bs.len(),
{
    if bs.len() > 0 {
        let p = bs.drop_last();
        assert forall|i: int, j: int| 0 <= i < j < p.len() implies crate::data::bytes_lt(
            #[trigger] p[i],
            #[trigger] p[j],
        ) by {
            assert(p[i] == bs[i] && p[j] == bs[j]);
        }
        lemma_blobs_from_ascending(p);
        assert forall|j: int| 0 <= j < p.len() implies bytes_order(#[trigger] p[j], bs.last())
            < 0 by {
            assert(p[j] == bs[j]);
            assert(crate::data::bytes_lt(bs[j], bs[bs.len() - 1]));
            lemma_bytes_lt_order(p[j], bs.last());
        }
        lemma_blobs_insert_at(p, bs.last(), p.len() as int);
        assert(p.insert(p.len() as int, bs.last()) =~= bs);
    }
}

// ---------------------------------------------------------------------------
// Executable insertion
// ---------------------------------------------------------------------------

/// Adds a string to a string set (see [`strs_insert`]).
pub fn insert_string(v: &mut Vec<String>, x: String)
    ensures
        strs_view(final(v)@) == strs_insert(strs_view(old(v)@), x@),
{
    let ghost sv = strs_view(v@);
    let mut i: usize = 0;
    while i < v.len()
        invariant
            i <= v.len(),
            strs_view(v@) == sv,
            forall|j: int| 0 <= j < i ==> chars_lt(#[trigger] sv[j], x@),
        ensures
            i <= v.len(),
            strs_view(v@) == sv,
            forall|j: int| 0 <= j < i ==> chars_lt(#[trigger] sv[j], x@),
            i < v.len() ==> !chars_lt(sv[i as int], x@),
        decreases v.len() - i,
    {
        let c = compare_strings(&v[i], &x);
        assert(sv[i as int] == v@[i as int]@);
        if c >= 0 {
            break;
        }
        i += 1;
    }
    proof {
        lemma_strs_insert_at(sv, x@, i as int);
    }
    if i < v.len() && v[i] == x {
        assert(sv[i as int] == x@);
        return;
    }
    let ghost xv = x@;
    v.insert(i, x);
    assert(strs_view(v@) =~= sv.insert(i as int, xv));
}

/// Adds a number to a number set (see [`nums_insert`]).
pub fn insert_number(v: &mut Vec<Number>, x: Number)
    requires
        forall|j: int| 0 <= j < old(v)@.len() ==> (#[trigger] old(v)@[j]).wf(),
        x.wf(),
    ensures
        final(v)@ == nums_insert(old(v)@, x),
{
    let ghost sv = v@;
    let mut i: usize = 0;
    while i < v.len()
        invariant
            i <= v.len(),
            v@ == sv,
            x.wf(),
            forall|j: int| 0 <= j < v@.len() ==> (#[trigger] v@[j]).wf(),
            forall|j: int| 0 <= j < i ==> num_lt(#[trigger] sv[j], x),
        ensures
            i <= v.len(),
            v@ == sv,
            forall|j: int| 0 <= j < i ==> num_lt(#[trigger] sv[j], x),
            i < v.len() ==> !num_lt(sv[i as int], x),
            i < v.len() ==> (compare_numbers_spec(sv[i as int], x) == 0 <==> num_eq(sv[i as int], x)),
        decreases v.len() - i,
    {
        let c = compare_numbers(&v[i], &x);
        if c >= 0 {
            break;
        }
        i += 1;
    }
    proof {
        lemma_nums_insert_at(sv, x, i as int);
    }
    if i < v.len() && compare_numbers(&v[i], &x) == 0 {
        return;
    }
    v.insert(i, x);
}

/// The numeric three-way comparison (see [`crate::number::num_order`]).
pub open spec fn compare_numbers_spec(a: Number, b: Number) -> int {
    crate::number::num_order(a, b)
}

/// Adds a byte string to a binary set (see [`blobs_insert`]).
pub fn insert_bytes(v: &mut Vec<Vec<u8>>, x: Vec<u8>)
    ensures
        blobs_view(final(v)@) == blobs_insert(blobs_view(old(v)@), x@),
{
    let ghost sv = blobs_view(v@);
    let mut i: usize = 0;
    while i < v.len()
        invariant
            i <= v.len(),
            blobs_view(v@) == sv,
            forall|j: int| 0 <= j < i ==> bytes_order(#[trigger] sv[j], x@) < 0,
        ensures
            i <= v.len(),
            blobs_view(v@) == sv,
            forall|j: int| 0 <= j < i ==> bytes_order(#[trigger] sv[j], x@) < 0,
            i < v.len() ==> bytes_order(sv[i as int], x@) >= 0,
        decreases v.len() - i,
    {
        let c = compare_bytes(&v[i], &x);
        assert(sv[i as int] == v@[i as int]@);
        if c >= 0 {
            break;
        }
        i += 1;
    }
    proof {
        lemma_blobs_insert_at(sv, x@, i as int);
    }
    if i < v.len() {
        let c = compare_bytes(&v[i], &x);
        proof {
            lemma_bytes_order_zero(sv[i as int], x@);
        }
        if c == 0 {
            return;
        }
    }
    let ghost xv = x@;
    v.insert(i, x);
    assert(blobs_view(v@) =~= sv.insert(i as int, xv));
}

} // verus!
