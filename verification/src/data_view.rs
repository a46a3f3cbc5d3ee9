//! How the values of attribute sequences relate to the sequences.
use vstd::prelude::*;

use crate::data::{AttrV, Attribute};
use crate::text::strs_view;

verus! {

/// The value of an attribute.
pub open spec fn attr_view(a: Attribute) -> AttrV
    decreases a,
{
    match a {
        Attribute::S(s) => AttrV::S(s@),
        Attribute::N(n) => AttrV::N(n),
        Attribute::B(b) => AttrV::B(b@),
        Attribute::BOOL(b) => AttrV::BOOL(b),
        Attribute::NULL => AttrV::NULL,
        Attribute::L(v) => AttrV::L(list_view(v@)),
        Attribute::M(m) => AttrV::M(pairs_view(m.entries@)),
        Attribute::SS(v) => AttrV::SS(strs_view(v@)),
        Attribute::NS(v) => AttrV::NS(v@),
        Attribute::BS(v) => AttrV::BS(blobs_view(v@)),
    }
}

/// The values of a sequence of attributes.
pub open spec fn list_view(s: Seq<Attribute>) -> Seq<AttrV>
    decreases s,
{
    if s.len() == 0 {
        Seq::empty()
    } else {
        list_view(s.subrange(0, s.len() - 1)).push(attr_view(s[s.len() - 1]))
    }
}

/// The values of a sequence of named attributes.
pub open spec fn pairs_view(s: Seq<(String, Attribute)>) -> Seq<(Seq<char>, AttrV)>
    decreases s,
{
    if s.len() == 0 {
        Seq::empty()
    } else {
        pairs_view(s.subrange(0, s.len() - 1)).push((s[s.len() - 1].0@, attr_view(s[s.len() - 1].1)))
    }
}

/// The contents of a sequence of byte vectors.
pub open spec fn blobs_view(v: Seq<Vec<u8>>) -> Seq<Seq<u8>> {
    v.map_values(|b: Vec<u8>| b@)
}

pub broadcast proof fn lemma_list_view(s: Seq<Attribute>)
    ensures
        #[trigger] list_view(s).len() == s.len(),
        forall|i: int| 0 <= i < s.len() ==> #[trigger] list_view(s)[i] == attr_view(s[i]),
    decreases s.len(),
{
    if s.len() > 0 {
        lemma_list_view(s.subrange(0, s.len() - 1));
    }
}

pub broadcast proof fn lemma_pairs_view(s: Seq<(String, Attribute)>)
    ensures
        #[trigger] pairs_view(s).len() == s.len(),
        forall|i: int|
            0 <= i < s.len() ==> #[trigger] pairs_view(s)[i] == (s[i].0@, attr_view(s[i].1)),
    decreases s.len(),
{
    if s.len() > 0 {
        lemma_pairs_view(s.subrange(0, s.len() - 1));
    }
}

} // verus!
