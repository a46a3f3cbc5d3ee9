//! The decisions behind the DynamoDB calls: key condition expressions for
//! queries, the key of an item for deletes, the key schema of a table and the
//! order in which loaded items are shown. The calls themselves are I/O and
//! are made by the caller with what these functions return.
use vstd::prelude::*;

use crate::data::{
    AttrMap, AttrV, Attribute, Item, KeySchemaElement, KeySchemaType, KeyType, QueryRequest,
    SortKeyCondition, attr_wf, has_key, keys_sorted, lookup,
};
use crate::order::{attr_order, compare_attributes, lemma_attr_order_antisym};
use crate::text::{concat2, copy_str};

verus! {

broadcast use {crate::data_view::lemma_list_view, crate::data_view::lemma_pairs_view};

/// How many items to pull when a table is first opened. Bounded on purpose:
/// opening a table never triggers a full-table scan.
pub const DEFAULT_SCAN_LIMIT: i32 = 100i32;

// ---------------------------------------------------------------------------
// Views of the query types
// ---------------------------------------------------------------------------

/// The value of a sort key condition.
pub enum SortCondV {
    Eq(AttrV),
    BeginsWith(Seq<char>),
    Lt(AttrV),
    Le(AttrV),
    Gt(AttrV),
    Ge(AttrV),
    Between(AttrV, AttrV),
}

impl View for SortKeyCondition {
    type V = SortCondV;

    open spec fn view(&self) -> SortCondV {
        match self {
            SortKeyCondition::Eq(v) => SortCondV::Eq(v@),
            SortKeyCondition::BeginsWith(s) => SortCondV::BeginsWith(s@),
            SortKeyCondition::Lt(v) => SortCondV::Lt(v@),
            SortKeyCondition::Le(v) => SortCondV::Le(v@),
            SortKeyCondition::Gt(v) => SortCondV::Gt(v@),
            SortKeyCondition::Ge(v) => SortCondV::Ge(v@),
            SortKeyCondition::Between(a, b) => SortCondV::Between(a@, b@),
        }
    }
}

/// The value of a query request.
pub struct QueryRequestV {
    pub index_name: Option<Seq<char>>,
    pub partition_key: (Seq<char>, AttrV),
    pub sort_key: Option<(Seq<char>, SortCondV)>,
}

impl View for QueryRequest {
    type V = QueryRequestV;

    open spec fn view(&self) -> QueryRequestV {
        QueryRequestV {
            index_name: match self.index_name {
                Some(n) => Some(n@),
                None => None,
            },
            partition_key: (self.partition_key.0@, self.partition_key.1@),
            sort_key: match self.sort_key {
                Some((n, c)) => Some((n@, c@)),
                None => None,
            },
        }
    }
}

/// The placeholders of a key condition expression and what they stand for.
#[derive(Debug, PartialEq, Eq)]
pub struct NameMap {
    pub entries: Vec<(String, String)>,
}

impl View for NameMap {
    type V = Seq<(Seq<char>, Seq<char>)>;

    open spec fn view(&self) -> Seq<(Seq<char>, Seq<char>)> {
        self.entries@.map_values(|e: (String, String)| (e.0@, e.1@))
    }
}

impl NameMap {
    /// The attribute name a placeholder stands for, if any.
    pub fn get(&self, key: &str) -> (r: Option<&String>)
        ensures
            match r {
                Some(v) => exists|i: int|
                    0 <= i < self@.len() && #[trigger] self@[i] == (key@, v@),
                None => forall|i: int| 0 <= i < self@.len() ==> (#[trigger] self@[i]).0 != key@,
            },
    {
        let k = key.to_owned();
        let mut i: usize = 0;
        while i < self.entries.len()
            invariant
                i <= self.entries.len(),
                k@ == key@,
                forall|j: int| 0 <= j < i ==> (#[trigger] self@[j]).0 != key@,
            decreases self.entries.len() - i,
        {
            if self.entries[i].0 == k {
                assert(self@[i as int] == (key@, self.entries@[i as int].1@));
                return Some(&self.entries[i].1);
            }
            i += 1;
        }
        None
    }
}

// ---------------------------------------------------------------------------
// Key condition
// ---------------------------------------------------------------------------

/// The key condition expression of a query: `#p = :p`, followed by the sort
/// key clause over `#s`, `:s` (and `:s2` for `BETWEEN`) when there is one.
pub open spec fn key_condition_text(sort: Option<SortCondV>) -> Seq<char> {
    "#p = :p"@ + match sort {
        None => Seq::<char>::empty(),
        Some(SortCondV::Eq(_)) => " AND #s = :s"@,
        Some(SortCondV::BeginsWith(_)) => " AND begins_with(#s, :s)"@,
        Some(SortCondV::Lt(_)) => " AND #s < :s"@,
        Some(SortCondV::Le(_)) => " AND #s <= :s"@,
        Some(SortCondV::Gt(_)) => " AND #s > :s"@,
        Some(SortCondV::Ge(_)) => " AND #s >= :s"@,
        Some(SortCondV::Between(_, _)) => " AND #s BETWEEN :s AND :s2"@,
    }
}

/// The attribute names of a key condition: `#p` for the partition key and,
/// when the query has a sort key condition, `#s` for the sort key.
pub open spec fn key_condition_names(q: QueryRequestV) -> Seq<(Seq<char>, Seq<char>)> {
    seq![("#p"@, q.partition_key.0)] + match q.sort_key {
        None => Seq::empty(),
        Some((sk, _)) => seq![("#s"@, sk)],
    }
}

/// The values of a key condition: `:p` for the partition key value and the
/// operand(s) of the sort key condition under `:s` (and `:s2`); the operand
/// of `begins_with` is a string value.
pub open spec fn key_condition_values(q: QueryRequestV) -> Seq<(Seq<char>, AttrV)> {
    seq![(":p"@, q.partition_key.1)] + match q.sort_key {
        None => Seq::empty(),
        Some((_, SortCondV::Eq(v))) => seq![(":s"@, v)],
        Some((_, SortCondV::BeginsWith(s))) => seq![(":s"@, AttrV::S(s))],
        Some((_, SortCondV::Lt(v))) => seq![(":s"@, v)],
        Some((_, SortCondV::Le(v))) => seq![(":s"@, v)],
        Some((_, SortCondV::Gt(v))) => seq![(":s"@, v)],
        Some((_, SortCondV::Ge(v))) => seq![(":s"@, v)],
        Some((_, SortCondV::Between(a, b))) => seq![(":s"@, a), (":s2"@, b)],
    }
}

/// The sort key condition of a query, if it has one.
pub open spec fn sort_condition(q: QueryRequestV) -> Option<SortCondV> {
    match q.sort_key {
        Some((_, c)) => Some(c),
        None => None,
    }
}

/// Builds a `KeyConditionExpression` with its expression attribute names and
/// values from a query request. Name placeholders `#p`/`#s` and value
/// placeholders `:p`/`:s`/`:s2` make any attribute name safe to use.
pub fn build_key_condition(request: &QueryRequest) -> (r: (String, NameMap, AttrMap))
    ensures
        r.0@ == key_condition_text(sort_condition(request@)),
        r.1@ == key_condition_names(request@),
        r.2@ == key_condition_values(request@),
{
    proof {
        reveal_strlit("#p = :p");
        reveal_strlit("#p");
        reveal_strlit("#s");
        reveal_strlit(":p");
        reveal_strlit(":s");
        reveal_strlit(":s2");
    }
    let mut names: Vec<(String, String)> = Vec::new();
    names.push((copy_str("#p"), request.partition_key.0.clone()));
    let mut values: Vec<(String, Attribute)> = Vec::new();
    values.push((copy_str(":p"), request.partition_key.1.copy()));
    let mut expr = copy_str("#p = :p");
    let ghost q = request@;
    match &request.sort_key {
        None => {},
        Some((sk_name, cond)) => {
            names.push((copy_str("#s"), sk_name.clone()));
            match cond {
                SortKeyCondition::Eq(v) => {
                    values.push((copy_str(":s"), v.copy()));
                    expr = concat2(expr.as_str(), " AND #s = :s");
                },
                SortKeyCondition::BeginsWith(s) => {
                    values.push((copy_str(":s"), Attribute::S(s.clone())));
                    expr = concat2(expr.as_str(), " AND begins_with(#s, :s)");
                },
                SortKeyCondition::Lt(v) => {
                    values.push((copy_str(":s"), v.copy()));
                    expr = concat2(expr.as_str(), " AND #s < :s");
                },
                SortKeyCondition::Le(v) => {
                    values.push((copy_str(":s"), v.copy()));
                    expr = concat2(expr.as_str(), " AND #s <= :s");
                },
                SortKeyCondition::Gt(v) => {
                    values.push((copy_str(":s"), v.copy()));
                    expr = concat2(expr.as_str(), " AND #s > :s");
                },
                SortKeyCondition::Ge(v) => {
                    values.push((copy_str(":s"), v.copy()));
                    expr = concat2(expr.as_str(), " AND #s >= :s");
                },
                SortKeyCondition::Between(a, b) => {
                    values.push((copy_str(":s"), a.copy()));
                    values.push((copy_str(":s2"), b.copy()));
                    expr = concat2(expr.as_str(), " AND #s BETWEEN :s AND :s2");
                },
            }
        },
    }
    let names = NameMap { entries: names };
    let values = AttrMap { entries: values };
    proof {
        assert(expr@ =~= key_condition_text(sort_condition(q)));
        assert(names@ =~= key_condition_names(q));
        assert(values@ =~= key_condition_values(q));
    }
    (expr, names, values)
}

// ---------------------------------------------------------------------------
// Keys and key schemas
// ---------------------------------------------------------------------------

/// The names of the key attributes of a schema.
pub open spec fn key_names(schema: KeySchemaType) -> Seq<Seq<char>> {
    match schema {
        KeySchemaType::Hash(pk) => seq![pk@],
        KeySchemaType::HashRange(pk, sk) => seq![pk@, sk@],
    }
}

/// The key of an item: the key attributes of the schema that the item has,
/// with their values.
pub fn key_of(item: &Item, schema: &KeySchemaType) -> (r: AttrMap)
    requires
        keys_sorted(item@),
    ensures
        keys_sorted(r@),
        forall|k: Seq<char>|
            lookup(r@, k) == if key_names(*schema).contains(k) {
                lookup(item@, k)
            } else {
                None
            },
{
    let mut key = AttrMap::new();
    let ghost names = key_names(*schema);
    let (first, second) = match schema {
        KeySchemaType::Hash(pk) => (pk, None),
        KeySchemaType::HashRange(pk, sk) => (pk, Some(sk)),
    };
    if let Some(attr) = item.attributes.get(first.as_str()) {
        key.insert(first.clone(), attr.copy());
    }
    proof {
        assert(names[0] == first@);
    }
    let ghost after_first = key@;
    match second {
        Some(sk) => {
            if let Some(attr) = item.attributes.get(sk.as_str()) {
                key.insert(sk.clone(), attr.copy());
            }
            proof {
                assert(names[1] == sk@);
                assert forall|k: Seq<char>|
                    lookup(key@, k) == if names.contains(k) {
                        lookup(item@, k)
                    } else {
                        None
                    } by {
                    if names.contains(k) {
                        let j = choose|j: int| 0 <= j < names.len() && names[j] == k;
                        assert(j == 0 || j == 1);
                    }
                    if k != first@ && k != sk@ {
                        assert(!names.contains(k));
                    }
                }
            }
        },
        None => {
            proof {
                assert forall|k: Seq<char>|
                    lookup(key@, k) == if names.contains(k) {
                        lookup(item@, k)
                    } else {
                        None
                    } by {
                    if names.contains(k) {
                        let j = choose|j: int| 0 <= j < names.len() && names[j] == k;
                        assert(j == 0);
                    }
                    if k != first@ {
                        assert(!names.contains(k));
                    }
                }
            }
        },
    }
    key
}

/// The number of elements of a key schema with the given key type.
pub open spec fn count_kind(es: Seq<KeySchemaElement>, kind: KeyType) -> nat
    decreases es.len(),
{
    if es.len() == 0 {
        0
    } else {
        count_kind(es.drop_last(), kind) + if es.last().key_type == kind {
            1nat
        } else {
            0nat
        }
    }
}

/// The name of the (last) element of a key schema with the given key type.
pub open spec fn name_of_kind(es: Seq<KeySchemaElement>, kind: KeyType) -> Option<Seq<char>>
    decreases es.len(),
{
    if es.len() == 0 {
        None
    } else if es.last().key_type == kind {
        Some(es.last().attribute_name@)
    } else {
        name_of_kind(es.drop_last(), kind)
    }
}

/// The key schema type of a table's key schema. A schema has exactly one hash
/// key and at most one range key.
pub fn to_key_schema_type(elements: Vec<KeySchemaElement>) -> (r: KeySchemaType)
    requires
        count_kind(elements@, KeyType::Hash) == 1,
        count_kind(elements@, KeyType::Range) <= 1,
    ensures
        match r {
            KeySchemaType::Hash(pk) => Some(pk@) == name_of_kind(elements@, KeyType::Hash)
                && name_of_kind(elements@, KeyType::Range) is None,
            KeySchemaType::HashRange(pk, sk) => Some(pk@) == name_of_kind(
                elements@,
                KeyType::Hash,
            ) && Some(sk@) == name_of_kind(elements@, KeyType::Range),
        },
{
    let (h, r) = kind_names(&elements);
    match (h, r) {
        (Some(h), Some(r)) => KeySchemaType::HashRange(h, r),
        (Some(h), None) => KeySchemaType::Hash(h),
        (None, _) => {
            proof {
                lemma_count_name(elements@, KeyType::Hash);
            }
            KeySchemaType::Hash(String::new())
        },
    }
}

proof fn lemma_count_name(es: Seq<KeySchemaElement>, kind: KeyType)
    ensures
        count_kind(es, kind) > 0 <==> name_of_kind(es, kind) is Some,
    decreases es.len(),
{
    if es.len() > 0 {
        lemma_count_name(es.drop_last(), kind);
    }
}

/// The names of the last hash and last range elements of a key schema.
fn kind_names(es: &Vec<KeySchemaElement>) -> (r: (Option<String>, Option<String>))
    ensures
        match r.0 {
            Some(h) => name_of_kind(es@, KeyType::Hash) == Some(h@),
            None => name_of_kind(es@, KeyType::Hash) is None,
        },
        match r.1 {
            Some(s) => name_of_kind(es@, KeyType::Range) == Some(s@),
            None => name_of_kind(es@, KeyType::Range) is None,
        },
{
    let mut hash: Option<String> = None;
    let mut range: Option<String> = None;
    let mut i: usize = 0;
    while i < es.len()
        invariant
            i <= es.len(),
            match hash {
                Some(h) => name_of_kind(es@.take(i as int), KeyType::Hash) == Some(h@),
                None => name_of_kind(es@.take(i as int), KeyType::Hash) is None,
            },
            match range {
                Some(s) => name_of_kind(es@.take(i as int), KeyType::Range) == Some(s@),
                None => name_of_kind(es@.take(i as int), KeyType::Range) is None,
            },
        decreases es.len() - i,
    {
        assert(es@.take(i + 1).drop_last() =~= es@.take(i as int));
        match es[i].key_type {
            KeyType::Hash => {
                hash = Some(es[i].attribute_name.clone());
            },
            KeyType::Range => {
                range = Some(es[i].attribute_name.clone());
            },
        }
        i += 1;
    }
    assert(es@.take(es.len() as int) =~= es@);
    (hash, range)
}

/// The key schema type of an index's key schema, leniently: the last hash
/// and last range elements are used, and an empty hash key name stands in for
/// a missing one.
pub fn schema_of(key_schema: &Vec<KeySchemaElement>) -> (r: KeySchemaType)
    ensures
        match (name_of_kind(key_schema@, KeyType::Hash), name_of_kind(key_schema@, KeyType::Range)) {
            (Some(h), Some(s)) => r matches KeySchemaType::HashRange(a, b) && a@ == h && b@ == s,
            (Some(h), None) => r matches KeySchemaType::Hash(a) && a@ == h,
            (None, _) => r matches KeySchemaType::Hash(a) && a@ == Seq::<char>::empty(),
        },
{
    let (h, r) = kind_names(key_schema);
    match (h, r) {
        (Some(h), Some(r)) => KeySchemaType::HashRange(h, r),
        (Some(h), None) => KeySchemaType::Hash(h),
        (None, _) => KeySchemaType::Hash(String::new()),
    }
}

// ---------------------------------------------------------------------------
// Sorting items
// ---------------------------------------------------------------------------

/// The value of an item's attribute that is known to be there.
pub open spec fn value_of(item: Seq<(Seq<char>, AttrV)>, name: Seq<char>) -> AttrV {
    lookup(item, name).unwrap()
}

/// The order of two items by the key attributes of a schema: by partition
/// key, then by sort key.
pub open spec fn key_order(
    schema: KeySchemaType,
    a: Seq<(Seq<char>, AttrV)>,
    b: Seq<(Seq<char>, AttrV)>,
) -> int {
    match schema {
        KeySchemaType::Hash(pk) => attr_order(value_of(a, pk@), value_of(b, pk@)),
        KeySchemaType::HashRange(pk, sk) => {
            let c = attr_order(value_of(a, pk@), value_of(b, pk@));
            if c != 0 {
                c
            } else {
                attr_order(value_of(a, sk@), value_of(b, sk@))
            }
        },
    }
}

/// An item that can be ordered by the schema: its attributes are
/// well-formed and it has every key attribute.
pub open spec fn sortable(schema: KeySchemaType, item: Seq<(Seq<char>, AttrV)>) -> bool {
    &&& crate::data::entries_wf(item)
    &&& forall|i: int| 0 <= i < key_names(schema).len() ==> has_key(item, #[trigger] key_names(schema)[i])
}

/// The values of a sequence of items.
pub open spec fn items_view(v: Seq<Item>) -> Seq<Seq<(Seq<char>, AttrV)>> {
    v.map_values(|it: Item| it@)
}

proof fn lemma_key_order_antisym(schema: KeySchemaType, a: Seq<(Seq<char>, AttrV)>, b: Seq<(Seq<char>, AttrV)>)
    ensures
        key_order(schema, a, b) == -key_order(schema, b, a),
{
    match schema {
        KeySchemaType::Hash(pk) => lemma_attr_order_antisym(value_of(a, pk@), value_of(b, pk@)),
        KeySchemaType::HashRange(pk, sk) => {
            lemma_attr_order_antisym(value_of(a, pk@), value_of(b, pk@));
            lemma_attr_order_antisym(value_of(a, sk@), value_of(b, sk@));
        },
    }
}

/// Compares two items by the key attributes of a schema.
fn compare_items(a: &Item, b: &Item, schema: &KeySchemaType) -> (r: i8)
    requires
        sortable(*schema, a@),
        sortable(*schema, b@),
    ensures
        r as int == key_order(*schema, a@, b@),
{
    match schema {
        KeySchemaType::Hash(pk) => {
            assert(has_key(a@, key_names(*schema)[0]));
            assert(has_key(b@, key_names(*schema)[0]));
            let x = item_value(a, pk);
            let y = item_value(b, pk);
            compare_attributes(x, y)
        },
        KeySchemaType::HashRange(pk, sk) => {
            assert(has_key(a@, key_names(*schema)[0]));
            assert(has_key(b@, key_names(*schema)[0]));
            assert(has_key(a@, key_names(*schema)[1]));
            assert(has_key(b@, key_names(*schema)[1]));
            let c = compare_attributes(item_value(a, pk), item_value(b, pk));
            if c != 0 {
                c
            } else {
                compare_attributes(item_value(a, sk), item_value(b, sk))
            }
        },
    }
}

/// The attribute an item has under `name`.
fn item_value<'a>(item: &'a Item, name: &String) -> (r: &'a Attribute)
    requires
        crate::data::entries_wf(item@),
        has_key(item@, name@),
    ensures
        r@ == value_of(item@, name@),
        attr_wf(r@),
{
    let i = item.attributes.position(name.as_str()).unwrap();
    proof {
        crate::data::lemma_lookup_at(item@, i as int);
    }
    &item.attributes.entries[i].1
}

/// `after` is `before` rearranged (the item at position `i` of `after` was at
/// position `perm[i]` of `before`) so that each item's key is at most the
/// next item's key, and items with equal keys keep their relative order.
pub open spec fn stable_sort_of(
    schema: KeySchemaType,
    before: Seq<Seq<(Seq<char>, AttrV)>>,
    after: Seq<Seq<(Seq<char>, AttrV)>>,
    perm: Seq<int>,
) -> bool {
    &&& perm.len() == before.len()
    &&& after.len() == before.len()
    &&& forall|i: int| 0 <= i < perm.len() ==> 0 <= #[trigger] perm[i] < perm.len()
    &&& forall|i: int, j: int| 0 <= i < j < perm.len() ==> #[trigger] perm[i] != #[trigger] perm[j]
    &&& forall|i: int| 0 <= i < perm.len() ==> #[trigger] after[i] == before[perm[i]]
    &&& forall|i: int|
        0 <= i < perm.len() - 1 ==> key_order(schema, #[trigger] after[i], after[i + 1]) <= 0
    &&& forall|i: int|
        0 <= i < perm.len() - 1 && key_order(schema, #[trigger] after[i], after[i + 1]) == 0
            ==> perm[i] < perm[i + 1]
}

/// What holds after the first `i` items have been sorted in place: `cur` is
/// `orig` rearranged by `perm`, its first `i` items are the first `i` original
/// items in stable order, and the rest are untouched.
pub open spec fn sort_inv(
    schema: KeySchemaType,
    orig: Seq<Seq<(Seq<char>, AttrV)>>,
    cur: Seq<Seq<(Seq<char>, AttrV)>>,
    perm: Seq<int>,
    i: int,
) -> bool {
    let n = orig.len();
    &&& 0 <= i <= n
    &&& cur.len() == n
    &&& perm.len() == n
    &&& forall|k: int| 0 <= k < n ==> sortable(schema, #[trigger] orig[k])
    &&& forall|k: int| 0 <= k < n ==> 0 <= #[trigger] perm[k] < n
    &&& forall|k: int, l: int| 0 <= k < l < n ==> #[trigger] perm[k] != #[trigger] perm[l]
    &&& forall|k: int| 0 <= k < n ==> #[trigger] cur[k] == orig[perm[k]]
    &&& forall|k: int| 0 <= k < i ==> #[trigger] perm[k] < i
    &&& forall|k: int| i <= k < n ==> #[trigger] perm[k] == k
    &&& forall|k: int| 0 <= k < i - 1 ==> key_order(schema, #[trigger] cur[k], cur[k + 1]) <= 0
    &&& forall|k: int|
        0 <= k < i - 1 && key_order(schema, #[trigger] cur[k], cur[k + 1]) == 0 ==> perm[k]
            < perm[k + 1]
}

proof fn lemma_sort_step_perm(perm: Seq<int>, n: int, i: int, j: int)
    requires
        perm.len() == n,
        0 <= j <= i < n,
        forall|k: int| 0 <= k < n ==> 0 <= #[trigger] perm[k] < n,
        forall|k: int, l: int| 0 <= k < l < n ==> #[trigger] perm[k] != #[trigger] perm[l],
        forall|k: int| 0 <= k < i ==> #[trigger] perm[k] < i,
        forall|k: int| i <= k < n ==> #[trigger] perm[k] == k,
    ensures
        ({
            let p2 = perm.remove(i).insert(j, i);
            &&& p2.len() == n
            &&& forall|k: int| 0 <= k < n ==> 0 <= #[trigger] p2[k] < n
            &&& forall|k: int, l: int| 0 <= k < l < n ==> #[trigger] p2[k] != #[trigger] p2[l]
            &&& forall|k: int| 0 <= k < i + 1 ==> #[trigger] p2[k] < i + 1
            &&& forall|k: int| i + 1 <= k < n ==> #[trigger] p2[k] == k
        }),
{
    let p2 = perm.remove(i).insert(j, i);
    assert(perm[i] == i);
    assert forall|k: int| 0 <= k < n implies 0 <= #[trigger] p2[k] < n by {
        if k < j {
            assert(p2[k] == perm[k]);
        } else if k > j && k <= i {
            assert(p2[k] == perm[k - 1]);
        } else if k > i {
            assert(p2[k] == perm[k]);
        }
    }
    assert forall|k: int| 0 <= k < i + 1 implies #[trigger] p2[k] < i + 1 by {
        if k < j {
            assert(p2[k] == perm[k]);
        } else if k > j {
            assert(p2[k] == perm[k - 1]);
        }
    }
    assert forall|k: int| i + 1 <= k < n implies #[trigger] p2[k] == k by {
        assert(p2[k] == perm[k]);
    }
    assert forall|k: int, l: int| 0 <= k < l < n implies #[trigger] p2[k] != #[trigger] p2[l] by {
        let ok = if k < j {
            k
        } else if k == j {
            i
        } else if k <= i {
            k - 1
        } else {
            k
        };
        let ol = if l < j {
            l
        } else if l == j {
            i
        } else if l <= i {
            l - 1
        } else {
            l
        };
        assert(p2[k] == perm[ok]);
        assert(p2[l] == perm[ol]);
        assert(ok != ol);
    }
}

#[verifier::rlimit(40)]
proof fn lemma_sort_step(
    schema: KeySchemaType,
    orig: Seq<Seq<(Seq<char>, AttrV)>>,
    cur: Seq<Seq<(Seq<char>, AttrV)>>,
    perm: Seq<int>,
    i: int,
    j: int,
)
    requires
        sort_inv(schema, orig, cur, perm, i),
        i < orig.len(),
        0 <= j <= i,
        forall|k: int| j <= k < i ==> key_order(schema, #[trigger] cur[k], cur[i]) > 0,
        j > 0 ==> key_order(schema, cur[j - 1], cur[i]) <= 0,
    ensures
        sort_inv(
            schema,
            orig,
            cur.remove(i).insert(j, cur[i]),
            perm.remove(i).insert(j, i),
            i + 1,
        ),
{
    let n = orig.len() as int;
    let x = cur[i];
    let c2 = cur.remove(i).insert(j, x);
    let p2 = perm.remove(i).insert(j, i);
    lemma_sort_step_perm(perm, n, i, j);
    assert(perm[i] == i);
    assert forall|k: int| 0 <= k < n implies #[trigger] c2[k] == orig[p2[k]] by {
        if k < j {
            assert(c2[k] == cur[k] && p2[k] == perm[k]);
        } else if k == j {
        } else if k <= i {
            assert(c2[k] == cur[k - 1] && p2[k] == perm[k - 1]);
        } else {
            assert(c2[k] == cur[k] && p2[k] == perm[k]);
        }
    }
    assert forall|k: int| 0 <= k < i implies key_order(schema, #[trigger] c2[k], c2[k + 1]) <= 0
        && (key_order(schema, c2[k], c2[k + 1]) == 0 ==> p2[k] < p2[k + 1]) by {
        if k + 1 < j {
            assert(c2[k] == cur[k] && c2[k + 1] == cur[k + 1]);
            assert(p2[k] == perm[k] && p2[k + 1] == perm[k + 1]);
        } else if k + 1 == j {
            assert(c2[k] == cur[k] && c2[k + 1] == x);
            assert(p2[k] == perm[k] && p2[k + 1] == i);
        } else if k == j {
            assert(c2[k] == x && c2[k + 1] == cur[k]);
            lemma_key_order_antisym(schema, cur[k], x);
        } else {
            assert(c2[k] == cur[k - 1] && c2[k + 1] == cur[k]);
            assert(p2[k] == perm[k - 1] && p2[k + 1] == perm[k]);
        }
    }
}

/// Sorts items by the key attributes of the schema (partition key, then sort
/// key), keeping items with equal keys in their original order. Where there
/// are two items or more, every item must have the key attributes (each is
/// compared with another); a single item is left as it is.
pub fn sort_items(items: &mut Vec<Item>, schema: &KeySchemaType)
    requires
        old(items)@.len() > 1 ==> forall|i: int|
            0 <= i < old(items)@.len() ==> sortable(*schema, #[trigger] old(items)@[i]@),
    ensures
        exists|perm: Seq<int>| #[trigger] stable_sort_of(*schema, items_view(old(items)@), items_view(final(items)@), perm),
{
    let n = items.len();
    let ghost orig = items_view(items@);
    let ghost mut perm: Seq<int> = Seq::new(n as nat, |k: int| k);
    if n <= 1 {
        assert(stable_sort_of(*schema, orig, items_view(items@), perm));
        return;
    }
    let mut i: usize = 0;
    assert(items_view(items@) =~= orig);
    while i < n
        invariant
            n == items@.len(),
            i <= n,
            sort_inv(*schema, orig, items_view(items@), perm, i as int),
        decreases n - i,
    {
        let ghost before = items@;
        let ghost cur = items_view(items@);
        let x = items.remove(i);
        assert(items_view(items@) =~= cur.remove(i as int));
        assert(x@ == cur[i as int]);
        proof {
            assert forall|k: int| 0 <= k < n - 1 implies (#[trigger] items@[k])@ == cur.remove(i as int)[k] by {
                assert(items_view(items@)[k] == items@[k]@);
            }
            assert forall|k: int| 0 <= k < n - 1 implies sortable(*schema, (#[trigger] items@[k])@) by {
                let kk = if k < i { k } else { k + 1 };
                assert(cur.remove(i as int)[k] == cur[kk]);
                assert(cur[kk] == orig[perm[kk]]);
            }
            assert(cur[i as int] == orig[perm[i as int]]);
        }
        let mut j: usize = i;
        while j > 0 && compare_items(&items[j - 1], &x, schema) > 0
            invariant
                0 <= j <= i < n,
                items@.len() == n - 1,
                items_view(items@) == cur.remove(i as int),
                forall|k: int| 0 <= k < n - 1 ==> (#[trigger] items@[k])@ == cur.remove(i as int)[k],
                forall|k: int| 0 <= k < n - 1 ==> sortable(*schema, (#[trigger] items@[k])@),
                sortable(*schema, x@),
                x@ == cur[i as int],
                sort_inv(*schema, orig, cur, perm, i as int),
                forall|k: int| j <= k < i ==> key_order(*schema, #[trigger] cur[k], cur[i as int]) > 0,
            decreases j,
        {
            proof {
                assert(items@[j - 1]@ == cur.remove(i as int)[j - 1]);
            }
            j -= 1;
        }
        proof {
            if j > 0 {
                assert(items@[j - 1]@ == cur.remove(i as int)[j - 1]);
            }
            lemma_sort_step(*schema, orig, cur, perm, i as int, j as int);
        }
        items.insert(j, x);
        proof {
            assert(items_view(items@) =~= cur.remove(i as int).insert(j as int, cur[i as int]));
            perm = perm.remove(i as int).insert(j as int, i as int);
        }
        i += 1;
    }
    proof {
        let a = items_view(items@);
        assert(stable_sort_of(*schema, orig, a, perm));
    }
}

/// Items sorted by a string partition key come in dictionary order of that
/// key: in what [`sort_items`] gives, no item's key text is
/// lexicographically before the previous item's (`"apple"`, `"banana"`,
/// `"kiwi"`, whatever their lengths).
pub proof fn lemma_sorted_string_keys_in_dictionary_order(
    pk: String,
    before: Seq<Seq<(Seq<char>, AttrV)>>,
    after: Seq<Seq<(Seq<char>, AttrV)>>,
    perm: Seq<int>,
    i: int,
)
    requires
        stable_sort_of(KeySchemaType::Hash(pk), before, after, perm),
        0 <= i < after.len() - 1,
        value_of(after[i], pk@) is S,
        value_of(after[i + 1], pk@) is S,
    ensures
        !crate::order::lexicographically_before(
            value_of(after[i + 1], pk@)->S_0,
            value_of(after[i], pk@)->S_0,
        ),
{
    assert(key_order(KeySchemaType::Hash(pk), after[i], after[i + 1]) <= 0);
    crate::order::lemma_string_attributes_in_dictionary_order(
        value_of(after[i], pk@)->S_0,
        value_of(after[i + 1], pk@)->S_0,
    );
}

/// Whether an item has every key attribute of the schema, as sorting needs.
pub fn has_key_attributes(item: &Item, schema: &KeySchemaType) -> (r: bool)
    ensures
        r == forall|i: int| 0 <= i < key_names(*schema).len() ==> has_key(item@, #[trigger] key_names(*schema)[i]),
{
    match schema {
        KeySchemaType::Hash(pk) => {
            let r = item.attributes.contains_key(pk.as_str());
            proof {
                if !r {
                    assert(!has_key(item@, key_names(*schema)[0]));
                }
            }
            r
        },
        KeySchemaType::HashRange(pk, sk) => {
            let a = item.attributes.contains_key(pk.as_str());
            let b = item.attributes.contains_key(sk.as_str());
            proof {
                if !a {
                    assert(!has_key(item@, key_names(*schema)[0]));
                }
                if !b {
                    assert(!has_key(item@, key_names(*schema)[1]));
                }
            }
            a && b
        },
    }
}

/// What to do after a page of query results: fetch the next page, starting
/// after the given key, or stop with every item gathered, sorted.
pub enum PageStep {
    Next(AttrMap),
    Done(Vec<Item>),
}

impl PageStep {
    /// The items of a finished paging (empty while paging goes on).
    pub open spec fn done_items(self) -> Seq<Item> {
        match self {
            PageStep::Done(v) => v@,
            PageStep::Next(_) => Seq::empty(),
        }
    }
}

/// One step of paging through query results. The page's items join those
/// gathered so far; where the page ended with a last evaluated key, the next
/// page starts after it, and where it did not, paging is done and all the
/// items come back sorted by key (see [`sort_items`]; where there are two
/// items or more, each must then have the key attributes).
pub fn query_page_step(
    gathered: Vec<Item>,
    page: Vec<Item>,
    last_key: Option<AttrMap>,
    schema: &KeySchemaType,
) -> (r: (Vec<Item>, PageStep))
    requires
        last_key is None && (gathered@ + page@).len() > 1 ==> forall|i: int|
            0 <= i < (gathered@ + page@).len() ==> sortable(*schema, #[trigger] (gathered@ + page@)[i]@),
    ensures
        last_key is Some ==> r.1 == PageStep::Next(last_key->0) && r.0@ == gathered@ + page@,
        last_key is None ==> r.0@.len() == 0 && r.1 is Done,
        r.1 is Done ==> exists|perm: Seq<int>|
            #[trigger] stable_sort_of(*schema, items_view(gathered@ + page@), items_view(r.1.done_items()), perm),
{
    let ghost joined = gathered@ + page@;
    let mut all = gathered;
    let mut rest = page;
    all.append(&mut rest);
    assert(all@ =~= joined);
    match last_key {
        Some(k) => (all, PageStep::Next(k)),
        None => {
            sort_items(&mut all, schema);
            let ghost sorted = all@;
            let r = (Vec::new(), PageStep::Done(all));
            assert(items_view(r.1.done_items()) == items_view(sorted));
            assert(items_view(joined) == items_view(gathered@ + page@));
            r
        },
    }
}

// ---------------------------------------------------------------------------
// Conversions
// ---------------------------------------------------------------------------

/// Converts each element with `From`, in order.
pub fn vec_into<T, U: From<T>>(ts: Vec<T>) -> (r: Vec<U>)
    ensures
        r@.len() == ts@.len(),
        forall|i: int| 0 <= i < r@.len() ==> call_ensures(U::from, (ts@[i],), #[trigger] r@[i]),
{
    let mut rest = ts;
    let ghost orig = rest@;
    let mut r: Vec<U> = Vec::new();
    while rest.len() > 0
        invariant
            r@.len() + rest@.len() == orig.len(),
            rest@ == orig.subrange(r@.len() as int, orig.len() as int),
            forall|i: int| 0 <= i < r@.len() ==> call_ensures(U::from, (orig[i],), #[trigger] r@[i]),
        decreases rest.len(),
    {
        let t = rest.remove(0);
        let ghost k = r@.len();
        assert(t == orig[k as int]);
        r.push(U::from(t));
        assert(rest@ =~= orig.subrange(r@.len() as int, orig.len() as int));
    }
    r
}

} // verus!
