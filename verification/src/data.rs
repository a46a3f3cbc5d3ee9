//! The data model: DynamoDB attribute values, items, key schemas, table
//! descriptions and query requests.
use vstd::prelude::*;

use crate::number::{num_lt, Number};
use crate::text::{chars_lt, chars_of, compare_chars, strictly_sorted, strs_view};

verus! {

broadcast use {crate::data_view::lemma_list_view, crate::data_view::lemma_pairs_view};

pub use crate::data_view::{attr_view, blobs_view, list_view, pairs_view};

/// A DynamoDB attribute value.
///
/// Maps hold their entries in ascending key order; the three set kinds hold
/// their elements once each, ascending (strings and binaries by bytes,
/// numbers by value).
#[derive(Debug, PartialEq, Eq)]
pub enum Attribute {
    S(String),
    N(Number),
    B(Vec<u8>),
    BOOL(bool),
    NULL,
    L(Vec<Attribute>),
    M(AttrMap),
    SS(Vec<String>),
    NS(Vec<Number>),
    BS(Vec<Vec<u8>>),
}

/// A string-keyed map of attributes, its entries kept in ascending key order.
#[derive(Debug, PartialEq, Eq)]
pub struct AttrMap {
    pub entries: Vec<(String, Attribute)>,
}

/// An item: its attributes by name.
#[derive(Debug, PartialEq, Eq)]
pub struct Item {
    pub attributes: AttrMap,
}

/// The mathematical value of an [`Attribute`].
pub enum AttrV {
    S(Seq<char>),
    N(Number),
    B(Seq<u8>),
    BOOL(bool),
    NULL,
    L(Seq<AttrV>),
    M(Seq<(Seq<char>, AttrV)>),
    SS(Seq<Seq<char>>),
    NS(Seq<Number>),
    BS(Seq<Seq<u8>>),
}

impl View for Attribute {
    type V = AttrV;

    open spec fn view(&self) -> AttrV {
        attr_view(*self)
    }
}

impl View for AttrMap {
    type V = Seq<(Seq<char>, AttrV)>;

    open spec fn view(&self) -> Seq<(Seq<char>, AttrV)> {
        pairs_view(self.entries@)
    }
}

impl View for Item {
    type V = Seq<(Seq<char>, AttrV)>;

    open spec fn view(&self) -> Seq<(Seq<char>, AttrV)> {
        self.attributes@
    }
}

/// Strictly ascending byte strings.
pub open spec fn bytes_lt(a: Seq<u8>, b: Seq<u8>) -> bool
    decreases a.len(),
{
    if a.len() == 0 {
        b.len() > 0
    } else if b.len() == 0 {
        false
    } else if a[0] != b[0] {
        a[0] < b[0]
    } else {
        bytes_lt(a.drop_first(), b.drop_first())
    }
}

/// The keys of a sequence of entries.
pub open spec fn keys_of<V>(es: Seq<(Seq<char>, V)>) -> Seq<Seq<char>> {
    es.map_values(|e: (Seq<char>, V)| e.0)
}

/// Entries whose keys strictly ascend.
pub open spec fn keys_sorted<V>(es: Seq<(Seq<char>, V)>) -> bool {
    strictly_sorted(keys_of(es))
}

/// Numbers strictly ascending by value, each within a decimal's range.
pub open spec fn numbers_sorted(ns: Seq<Number>) -> bool {
    &&& forall|i: int| 0 <= i < ns.len() ==> (#[trigger] ns[i]).wf()
    &&& forall|i: int, j: int| 0 <= i < j < ns.len() ==> num_lt(#[trigger] ns[i], #[trigger] ns[j])
}

/// Byte strings strictly ascending.
pub open spec fn bytes_sorted(bs: Seq<Seq<u8>>) -> bool {
    forall|i: int, j: int| 0 <= i < j < bs.len() ==> bytes_lt(#[trigger] bs[i], #[trigger] bs[j])
}

/// A well-formed attribute value: numbers within range, map keys ascending,
/// set elements ascending and distinct, throughout.
pub open spec fn attr_wf(a: AttrV) -> bool
    decreases a,
{
    match a {
        AttrV::N(n) => n.wf(),
        AttrV::L(v) => forall|i: int| 0 <= i < v.len() ==> attr_wf(#[trigger] v[i]),
        AttrV::M(es) => keys_sorted(es) && forall|i: int|
            0 <= i < es.len() ==> attr_wf(#[trigger] es[i].1),
        AttrV::SS(ss) => strictly_sorted(ss),
        AttrV::NS(ns) => numbers_sorted(ns),
        AttrV::BS(bs) => bytes_sorted(bs),
        _ => true,
    }
}

/// A well-formed map: keys ascending, values well-formed.
pub open spec fn entries_wf(es: Seq<(Seq<char>, AttrV)>) -> bool {
    keys_sorted(es) && forall|i: int| 0 <= i < es.len() ==> attr_wf(#[trigger] es[i].1)
}

/// The value stored under `key`, if any.
pub open spec fn lookup<V>(es: Seq<(Seq<char>, V)>, key: Seq<char>) -> Option<V> {
    if exists|i: int| 0 <= i < es.len() && (#[trigger] es[i]).0 == key {
        Some(es[choose|i: int| 0 <= i < es.len() && (#[trigger] es[i]).0 == key].1)
    } else {
        None
    }
}

/// Whether some entry has the key `key`.
pub open spec fn has_key<V>(es: Seq<(Seq<char>, V)>, key: Seq<char>) -> bool {
    exists|i: int| 0 <= i < es.len() && (#[trigger] es[i]).0 == key
}

/// A copy of a byte vector.
pub fn copy_bytes(b: &Vec<u8>) -> (r: Vec<u8>)
    ensures
        r@ == b@,
{
    let mut r: Vec<u8> = Vec::new();
    let mut i: usize = 0;
    while i < b.len()
        invariant
            i <= b.len(),
            r@ == b@.take(i as int),
        decreases b.len() - i,
    {
        r.push(b[i]);
        i += 1;
        assert(r@ =~= b@.take(i as int));
    }
    assert(b@.take(b.len() as int) =~= b@);
    r
}

impl Attribute {
    /// A copy of this attribute.
    pub fn copy(&self) -> (r: Attribute)
        ensures
            r@ == self@,
        decreases self,
    {
        match self {
            Attribute::S(s) => Attribute::S(s.clone()),
            Attribute::N(n) => Attribute::N(*n),
            Attribute::B(b) => Attribute::B(copy_bytes(b)),
            Attribute::BOOL(b) => Attribute::BOOL(*b),
            Attribute::NULL => Attribute::NULL,
            Attribute::L(v) => {
                let mut r: Vec<Attribute> = Vec::new();
                let mut i: usize = 0;
                while i < v.len()
                    invariant
                        i <= v.len(),
                        *self is L && self->L_0 == *v,
                        r@.len() == i,
                        forall|k: int| 0 <= k < i ==> attr_view(#[trigger] r@[k]) == attr_view(
                            v@[k],
                        ),
                    decreases v.len() - i,
                {
                    proof {
                        assert(decreases_to!(*v => v@[i as int]));
                        assert(*self is L && self->L_0 == *v);
                        assert(decreases_to!(*self => self->L_0));
                        assert(decreases_to!(*self => v@[i as int]));
                    }
                    r.push(v[i].copy());
                    i += 1;
                }
                let res = Attribute::L(r);
                assert(list_view(r@) =~= list_view(v@));
                res
            },
            Attribute::M(m) => Attribute::M(m.copy()),
            Attribute::SS(v) => {
                let mut r: Vec<String> = Vec::new();
                let mut i: usize = 0;
                while i < v.len()
                    invariant
                        i <= v.len(),
                        r@.len() == i,
                        forall|k: int| 0 <= k < i ==> (#[trigger] r@[k])@ == v@[k]@,
                    decreases v.len() - i,
                {
                    r.push(v[i].clone());
                    i += 1;
                }
                assert(strs_view(r@) =~= strs_view(v@));
                Attribute::SS(r)
            },
            Attribute::NS(v) => {
                let mut r: Vec<Number> = Vec::new();
                let mut i: usize = 0;
                while i < v.len()
                    invariant
                        i <= v.len(),
                        r@ == v@.take(i as int),
                    decreases v.len() - i,
                {
                    r.push(v[i]);
                    i += 1;
                    assert(r@ =~= v@.take(i as int));
                }
                assert(v@.take(v.len() as int) =~= v@);
                Attribute::NS(r)
            },
            Attribute::BS(v) => {
                let mut r: Vec<Vec<u8>> = Vec::new();
                let mut i: usize = 0;
                while i < v.len()
                    invariant
                        i <= v.len(),
                        r@.len() == i,
                        forall|k: int| 0 <= k < i ==> (#[trigger] r@[k])@ == v@[k]@,
                    decreases v.len() - i,
                {
                    r.push(copy_bytes(&v[i]));
                    i += 1;
                }
                assert(blobs_view(r@) =~= blobs_view(v@));
                Attribute::BS(r)
            },
        }
    }
}

impl AttrMap {
    /// The empty map.
    pub fn new() -> (r: AttrMap)
        ensures
            r@ == Seq::<(Seq<char>, AttrV)>::empty(),
    {
        let r = AttrMap { entries: Vec::new() };
        assert(r@ =~= Seq::<(Seq<char>, AttrV)>::empty());
        r
    }

    /// The number of entries.
    pub fn len(&self) -> (r: usize)
        ensures
            r == self@.len(),
    {
        self.entries.len()
    }

    /// Whether the map has no entries.
    pub fn is_empty(&self) -> (r: bool)
        ensures
            r == (self@.len() == 0),
    {
        self.entries.len() == 0
    }

    /// A copy of this map.
    pub fn copy(&self) -> (r: AttrMap)
        ensures
            r@ == self@,
        decreases self,
    {
        let mut r: Vec<(String, Attribute)> = Vec::new();
        let mut i: usize = 0;
        while i < self.entries.len()
            invariant
                i <= self.entries.len(),
                r@.len() == i,
                forall|k: int|
                    0 <= k < i ==> (#[trigger] r@[k]).0@ == self.entries@[k].0@ && attr_view(
                        r@[k].1,
                    ) == attr_view(self.entries@[k].1),
            decreases self.entries.len() - i,
        {
            let e = &self.entries[i];
            r.push((e.0.clone(), e.1.copy()));
            i += 1;
        }
        let res = AttrMap { entries: r };
        assert(res@ =~= self@);
        res
    }

    /// The index of the entry whose key is `key`, if any.
    pub fn position(&self, key: &str) -> (r: Option<usize>)
        ensures
            match r {
                Some(i) => i < self@.len() && self@[i as int].0 == key@,
                None => !has_key(self@, key@),
            },
    {
        let k = key.to_owned();
        let mut i: usize = 0;
        while i < self.entries.len()
            invariant
                i <= self.entries.len(),
                self@.len() == self.entries@.len(),
                forall|j: int| 0 <= j < self@.len() ==> (#[trigger] self@[j]).0 == self.entries@[j].0@,
                k@ == key@,
                forall|j: int| 0 <= j < i ==> (#[trigger] self@[j]).0 != key@,
            decreases self.entries.len() - i,
        {
            if self.entries[i].0 == k {
                assert(self@[i as int].0 == key@);
                return Some(i);
            }
            i += 1;
        }
        None
    }

    /// Whether the map has an entry under `key`.
    pub fn contains_key(&self, key: &str) -> (r: bool)
        ensures
            r == has_key(self@, key@),
    {
        self.position(key).is_some()
    }

    /// The attribute stored under `key`, if any.
    pub fn get(&self, key: &str) -> (r: Option<&Attribute>)
        requires
            keys_sorted(self@),
        ensures
            match r {
                Some(a) => lookup(self@, key@) == Some(a@),
                None => lookup(self@, key@) is None,
            },
    {
        match self.position(key) {
            Some(i) => {
                proof {
                    lemma_lookup_at(self@, i as int);
                }
                Some(&self.entries[i].1)
            },
            None => None,
        }
    }

    /// Stores `value` under `key`, replacing what was stored there; the keys
    /// stay in ascending order.
    pub fn insert(&mut self, key: String, value: Attribute)
        requires
            keys_sorted(old(self)@),
        ensures
            keys_sorted(final(self)@),
            lookup(final(self)@, key@) == Some(value@),
            forall|k: Seq<char>| k != key@ ==> lookup(final(self)@, k) == lookup(old(self)@, k),
            forall|k: Seq<char>| has_key(final(self)@, k) <==> (has_key(old(self)@, k) || k == key@),
            entries_wf(old(self)@) && attr_wf(value@) ==> entries_wf(final(self)@),
            final(self)@ == map_insert(old(self)@, key@, value@),
    {
        let kc = chars_of(key.as_str());
        let ghost old_es = self@;
        let mut i: usize = 0;
        while i < self.entries.len()
            invariant
                i <= self.entries.len(),
                self@ == old_es,
                keys_sorted(old_es),
                kc@ == key@,
                forall|j: int| 0 <= j < i ==> chars_lt(#[trigger] old_es[j].0, key@),
            ensures
                i <= self.entries.len(),
                self@ == old_es,
                forall|j: int| 0 <= j < i ==> chars_lt(#[trigger] old_es[j].0, key@),
                i < self.entries.len() ==> !chars_lt(old_es[i as int].0, key@),
            decreases self.entries.len() - i,
        {
            let ek = chars_of(self.entries[i].0.as_str());
            let c = compare_chars(&ek, &kc);
            if c >= 0 {
                break;
            }
            i += 1;
        }
        let ghost vv = value@;
        proof {
            lemma_map_insert_at(old_es, key@, vv, i as int);
        }
        if i < self.entries.len() && self.entries[i].0 == key {
            let ghost pre = self@;
            self.entries.set(i, (key, value));
            proof {
                assert(self@ =~= pre.update(i as int, (key@, vv)));
                lemma_update_keeps_keys(pre, i as int, vv);
                lemma_lookup_at(self@, i as int);
                lemma_lookup_update(pre, i as int, vv);
                assert(forall|j: int| 0 <= j < self@.len() && j != i ==> self@[j] == pre[j]);
            }
        } else {
            let ghost pre = self@;
            proof {
                if i < self.entries.len() {
                    crate::text::lemma_chars_lt_total(pre[i as int].0, key@);
                }
            }
            self.entries.insert(i, (key, value));
            proof {
                assert(self@ =~= pre.insert(i as int, (key@, vv)));
                lemma_insert_keeps_sorted(pre, i as int, key@, vv);
                lemma_lookup_at(self@, i as int);
                lemma_lookup_insert(pre, i as int, key@, vv);
                assert(forall|j: int| 0 <= j < i ==> self@[j] == pre[j]);
                assert(forall|j: int| i < j < self@.len() ==> self@[j] == pre[j - 1]);
            }
        }
    }
}

proof fn lemma_sorted_keys_unique<V>(es: Seq<(Seq<char>, V)>, i: int, j: int)
    requires
        keys_sorted(es),
        0 <= i < es.len(),
        0 <= j < es.len(),
        es[i].0 == es[j].0,
    ensures
        i == j,
{
    if i < j {
        assert(chars_lt(keys_of(es)[i], keys_of(es)[j]));
        crate::text::lemma_chars_lt_irreflexive(es[i].0);
    } else if j < i {
        assert(chars_lt(keys_of(es)[j], keys_of(es)[i]));
        crate::text::lemma_chars_lt_irreflexive(es[i].0);
    }
}

/// Entries `es` (keys ascending) with `v` stored under `k`: the entry for `k`
/// replaced, or a new entry put where its key belongs.
pub open spec fn map_insert<V>(es: Seq<(Seq<char>, V)>, k: Seq<char>, v: V) -> Seq<
    (Seq<char>, V),
>
    decreases es.len(),
{
    if es.len() == 0 {
        seq![(k, v)]
    } else if es[0].0 == k {
        es.update(0, (k, v))
    } else if chars_lt(k, es[0].0) {
        seq![(k, v)] + es
    } else {
        seq![es[0]] + map_insert(es.drop_first(), k, v)
    }
}

/// Storing under a key puts the entry at the index where the key belongs:
/// in place of the entry with that key, or inserted before the first greater
/// key.
pub proof fn lemma_map_insert_at<V>(es: Seq<(Seq<char>, V)>, k: Seq<char>, v: V, i: int)
    requires
        0 <= i <= es.len(),
        forall|j: int| 0 <= j < i ==> chars_lt(#[trigger] es[j].0, k),
        i == es.len() || !chars_lt(es[i].0, k),
    ensures
        map_insert(es, k, v) == if i < es.len() && es[i].0 == k {
            es.update(i, (k, v))
        } else {
            es.insert(i, (k, v))
        },
    decreases i,
{
    if i == 0 {
        if es.len() > 0 && es[0].0 != k {
            crate::text::lemma_chars_lt_total(es[0].0, k);
        }
        if es.len() == 0 {
            assert(es.insert(0, (k, v)) =~= seq![(k, v)]);
        } else if es[0].0 != k {
            assert(es.insert(0, (k, v)) =~= seq![(k, v)] + es);
        }
    } else {
        assert(chars_lt(es[0].0, k));
        crate::text::lemma_chars_lt_irreflexive(k);
        crate::text::lemma_chars_lt_asymmetric(es[0].0, k);
        let rest = es.drop_first();
        assert forall|j: int| 0 <= j < i - 1 implies chars_lt(#[trigger] rest[j].0, k) by {
            assert(rest[j] == es[j + 1]);
        }
        lemma_map_insert_at(rest, k, v, i - 1);
        if i < es.len() && es[i].0 == k {
            assert(seq![es[0]] + rest.update(i - 1, (k, v)) =~= es.update(i, (k, v)));
        } else {
            assert(seq![es[0]] + rest.insert(i - 1, (k, v)) =~= es.insert(i, (k, v)));
        }
    }
}

/// The index where `k` belongs among the entries: every earlier key is below
/// `k`, and the key there, if any, is not.
proof fn lemma_insert_index<V>(es: Seq<(Seq<char>, V)>, k: Seq<char>) -> (i: int)
    ensures
        0 <= i <= es.len(),
        forall|j: int| 0 <= j < i ==> chars_lt(#[trigger] es[j].0, k),
        i == es.len() || !chars_lt(es[i].0, k),
    decreases es.len(),
{
    if es.len() == 0 || !chars_lt(es[0].0, k) {
        0
    } else {
        let rest = es.drop_first();
        let r = lemma_insert_index(rest, k);
        assert forall|j: int| 0 <= j < r + 1 implies chars_lt(#[trigger] es[j].0, k) by {
            if j > 0 {
                assert(es[j] == rest[j - 1]);
            }
        }
        if r < rest.len() {
            assert(es[r + 1] == rest[r]);
        }
        r + 1
    }
}

/// Storing `v` under `k` in entries with ascending keys: the keys stay
/// ascending, a lookup of `k` finds `v`, every other key finds what it found
/// before, and the keys are those there were, and `k`.
pub proof fn lemma_map_insert<V>(es: Seq<(Seq<char>, V)>, k: Seq<char>, v: V)
    requires
        keys_sorted(es),
    ensures
        keys_sorted(map_insert(es, k, v)),
        lookup(map_insert(es, k, v), k) == Some(v),
        forall|j: Seq<char>| j != k ==> lookup(map_insert(es, k, v), j) == lookup(es, j),
        forall|j: Seq<char>| has_key(map_insert(es, k, v), j) <==> (has_key(es, j) || j == k),
{
    let i = lemma_insert_index(es, k);
    lemma_map_insert_at(es, k, v, i);
    if i < es.len() && es[i].0 == k {
        let nes = es.update(i, (k, v));
        lemma_update_keeps_keys(es, i, v);
        lemma_lookup_at(nes, i);
        lemma_lookup_update(es, i, v);
    } else {
        if i < es.len() {
            crate::text::lemma_chars_lt_total(es[i].0, k);
        }
        let nes = es.insert(i, (k, v));
        lemma_insert_keeps_sorted(es, i, k, v);
        lemma_lookup_at(nes, i);
        lemma_lookup_insert(es, i, k, v);
    }
}

/// Each element of a well-formed list is well-formed.
pub proof fn lemma_attr_wf_list(v: Seq<AttrV>, i: int)
    requires
        attr_wf(AttrV::L(v)),
        0 <= i < v.len(),
    ensures
        attr_wf(v[i]),
{
    let a = AttrV::L(v);
    assert(decreases_to!(a => a->L_0));
    assert(decreases_to!(a => v[i]));
}

/// A well-formed map has ascending keys and well-formed values.
pub proof fn lemma_attr_wf_map(es: Seq<(Seq<char>, AttrV)>)
    requires
        attr_wf(AttrV::M(es)),
    ensures
        entries_wf(es),
{
    let a = AttrV::M(es);
    assert forall|i: int| 0 <= i < es.len() implies attr_wf(#[trigger] es[i].1) by {
        assert(decreases_to!(a => a->M_0));
        assert(decreases_to!(a => es[i]));
        assert(decreases_to!(a => es[i].1));
    }
}

/// What a lookup finds in a well-formed map is well-formed.
pub proof fn lemma_lookup_wf(es: Seq<(Seq<char>, AttrV)>, k: Seq<char>)
    requires
        entries_wf(es),
    ensures
        lookup(es, k) matches Some(v) ==> attr_wf(v),
{
    if has_key(es, k) {
        let i = choose|i: int| 0 <= i < es.len() && (#[trigger] es[i]).0 == k;
        lemma_lookup_at(es, i);
    }
}

/// With ascending keys, the entry at `i` is what a lookup of its key finds.
pub proof fn lemma_lookup_at<V>(es: Seq<(Seq<char>, V)>, i: int)
    requires
        keys_sorted(es),
        0 <= i < es.len(),
    ensures
        lookup(es, es[i].0) == Some(es[i].1),
        has_key(es, es[i].0),
{
    let k = choose|j: int| 0 <= j < es.len() && (#[trigger] es[j]).0 == es[i].0;
    lemma_sorted_keys_unique(es, i, k);
}

proof fn lemma_update_keeps_keys<V>(es: Seq<(Seq<char>, V)>, i: int, v: V)
    requires
        keys_sorted(es),
        0 <= i < es.len(),
    ensures
        keys_of(es.update(i, (es[i].0, v))) == keys_of(es),
        keys_sorted(es.update(i, (es[i].0, v))),
{
    assert(keys_of(es.update(i, (es[i].0, v))) =~= keys_of(es));
}

proof fn lemma_lookup_update<V>(es: Seq<(Seq<char>, V)>, i: int, v: V)
    requires
        keys_sorted(es),
        0 <= i < es.len(),
    ensures
        forall|k: Seq<char>|
            k != es[i].0 ==> lookup(es.update(i, (es[i].0, v)), k) == lookup(es, k),
        forall|k: Seq<char>| has_key(es.update(i, (es[i].0, v)), k) <==> has_key(es, k),
{
    let nes = es.update(i, (es[i].0, v));
    lemma_update_keeps_keys(es, i, v);
    assert forall|k: Seq<char>| k != es[i].0 implies lookup(nes, k) == lookup(es, k) by {
        if has_key(es, k) {
            let j = choose|j: int| 0 <= j < es.len() && (#[trigger] es[j]).0 == k;
            lemma_lookup_at(es, j);
            assert(nes[j] == es[j]);
            lemma_lookup_at(nes, j);
        } else {
            assert(!has_key(nes, k)) by {
                if has_key(nes, k) {
                    let j = choose|j: int| 0 <= j < nes.len() && (#[trigger] nes[j]).0 == k;
                    assert(es[j].0 == k);
                }
            }
        }
    }
    assert forall|k: Seq<char>| has_key(nes, k) <==> has_key(es, k) by {
        if has_key(es, k) {
            let j = choose|j: int| 0 <= j < es.len() && (#[trigger] es[j]).0 == k;
            assert(nes[j].0 == k);
        }
        if has_key(nes, k) {
            let j = choose|j: int| 0 <= j < nes.len() && (#[trigger] nes[j]).0 == k;
            assert(es[j].0 == k);
        }
    }
}

proof fn lemma_insert_keeps_sorted<V>(es: Seq<(Seq<char>, V)>, i: int, key: Seq<char>, v: V)
    requires
        keys_sorted(es),
        0 <= i <= es.len(),
        forall|j: int| 0 <= j < i ==> chars_lt(#[trigger] es[j].0, key),
        i < es.len() ==> chars_lt(key, es[i].0),
    ensures
        keys_sorted(es.insert(i, (key, v))),
{
    let nes = es.insert(i, (key, v));
    let nk = keys_of(nes);
    assert forall|a: int, b: int| 0 <= a < b < nk.len() implies chars_lt(
        #[trigger] nk[a],
        #[trigger] nk[b],
    ) by {
        let ok = keys_of(es);
        if b < i {
            assert(nk[a] == ok[a] && nk[b] == ok[b]);
        } else if b == i {
            assert(nk[a] == es[a].0);
        } else if a == i {
            assert(nk[b] == es[b - 1].0);
            if b - 1 > i {
                assert(chars_lt(ok[i], ok[b - 1]));
                crate::text::lemma_chars_lt_transitive(key, es[i].0, es[b - 1].0);
            }
        } else if a < i {
            assert(nk[a] == ok[a] && nk[b] == ok[b - 1]);
        } else {
            assert(nk[a] == ok[a - 1] && nk[b] == ok[b - 1]);
        }
    }
}

proof fn lemma_lookup_insert<V>(es: Seq<(Seq<char>, V)>, i: int, key: Seq<char>, v: V)
    requires
        keys_sorted(es),
        keys_sorted(es.insert(i, (key, v))),
        0 <= i <= es.len(),
    ensures
        forall|k: Seq<char>| k != key ==> lookup(es.insert(i, (key, v)), k) == lookup(es, k),
        forall|k: Seq<char>| has_key(es.insert(i, (key, v)), k) <==> (has_key(es, k) || k == key),
{
    let nes = es.insert(i, (key, v));
    assert forall|k: Seq<char>| k != key implies lookup(nes, k) == lookup(es, k) by {
        if has_key(es, k) {
            let j = choose|j: int| 0 <= j < es.len() && (#[trigger] es[j]).0 == k;
            lemma_lookup_at(es, j);
            let nj = if j < i { j } else { j + 1 };
            assert(nes[nj] == es[j]);
            lemma_lookup_at(nes, nj);
        } else {
            assert(!has_key(nes, k)) by {
                if has_key(nes, k) {
                    let j = choose|j: int| 0 <= j < nes.len() && (#[trigger] nes[j]).0 == k;
                    if j < i {
                        assert(es[j].0 == k);
                    } else if j > i {
                        assert(es[j - 1].0 == k);
                    }
                }
            }
        }
    }
    assert forall|k: Seq<char>| has_key(nes, k) <==> (has_key(es, k) || k == key) by {
        if has_key(es, k) {
            let j = choose|j: int| 0 <= j < es.len() && (#[trigger] es[j]).0 == k;
            let nj = if j < i { j } else { j + 1 };
            assert(nes[nj].0 == k);
        }
        if k == key {
            assert(nes[i].0 == k);
        }
        if has_key(nes, k) {
            let j = choose|j: int| 0 <= j < nes.len() && (#[trigger] nes[j]).0 == k;
            if j < i {
                assert(es[j].0 == k);
            } else if j > i {
                assert(es[j - 1].0 == k);
            }
        }
    }
}

/// The key attributes of a table or index: a partition key, and possibly a
/// sort key.
#[derive(Clone, Debug, PartialEq, Eq)]
pub enum KeySchemaType {
    Hash(String),
    HashRange(String, String),
}

/// The role of an attribute in a key schema.
#[derive(Clone, Copy, Debug, PartialEq, Eq)]
pub enum KeyType {
    Hash,
    Range,
}

/// One element of a key schema.
#[derive(Clone, Debug, PartialEq, Eq)]
pub struct KeySchemaElement {
    pub attribute_name: String,
    pub key_type: KeyType,
}

/// The scalar types a key attribute may have.
#[derive(Clone, Copy, Debug, PartialEq, Eq)]
pub enum ScalarAttributeType {
    S,
    N,
    B,
}

/// The declared type of an attribute of a table.
#[derive(Clone, Debug, PartialEq, Eq)]
pub struct AttributeDefinition {
    pub attribute_name: String,
    pub attribute_type: ScalarAttributeType,
}

impl AttributeDefinition {
    pub fn new(attribute_name: String, attribute_type: ScalarAttributeType) -> (r: AttributeDefinition)
        ensures
            r.attribute_name == attribute_name,
            r.attribute_type == attribute_type,
    {
        AttributeDefinition { attribute_name, attribute_type }
    }
}

/// A condition on the sort key of a query.
#[derive(Debug, PartialEq, Eq)]
pub enum SortKeyCondition {
    Eq(Attribute),
    BeginsWith(String),
    Lt(Attribute),
    Le(Attribute),
    Gt(Attribute),
    Ge(Attribute),
    Between(Attribute, Attribute),
}

/// A query against a table or one of its indexes: the partition key's name
/// and value, and optionally a condition on the sort key.
#[derive(Debug, PartialEq, Eq)]
pub struct QueryRequest {
    pub index_name: Option<String>,
    pub partition_key: (String, Attribute),
    pub sort_key: Option<(String, SortKeyCondition)>,
}

/// A table, by name.
#[derive(Clone, Debug, PartialEq, Eq)]
pub struct Table {
    pub name: String,
}

impl Table {
    pub fn new(name: String) -> (r: Table)
        ensures
            r.name == name,
    {
        Table { name }
    }
}

/// A secondary index: its name and key schema.
#[derive(Clone, Debug, PartialEq, Eq)]
pub struct SecondaryIndex {
    pub index_name: String,
    pub key_schema: Vec<KeySchemaElement>,
}

/// What the logic reads of a table's description.
#[derive(Clone, Debug, PartialEq, Eq)]
pub struct TableDescription {
    pub table_name: String,
    pub attribute_definitions: Vec<AttributeDefinition>,
    pub key_schema: Vec<KeySchemaElement>,
    pub key_schema_type: KeySchemaType,
    pub global_secondary_indexes: Option<Vec<SecondaryIndex>>,
    pub local_secondary_indexes: Option<Vec<SecondaryIndex>>,
}

} // verus!
