//! Self-describing values: a runtime type tag plus payload.
//!
//! [`Variant`] is the executable value; [`VariantView`] is its mathematical
//! model, used by every contract.  A maybe's payload is modelled as a
//! sequence of at most one element.

use vstd::prelude::*;

use crate::signature::{
    concat_all, valid_sig, Signature, ARRAY_TAG, BOOL_TAG, INT32_TAG, MAYBE_TAG, TUPLE_CLOSE,
    TUPLE_OPEN,
};

verus! {

broadcast use vstd::seq::group_seq_axioms;

/// The mathematical model of a [`Variant`].
#[verifier::ext_equal]
pub enum VariantView {
    Bool(bool),
    Int32(i32),
    Maybe { inner: Seq<u8>, value: Seq<VariantView> },
    Array { elem: Seq<u8>, items: Seq<VariantView> },
    Tuple { sig: Seq<u8>, items: Seq<VariantView> },
}

/// An immutable, self-describing value: a runtime type tag plus payload.
pub enum Variant {
    Bool(bool),
    Int32(i32),
    Maybe { inner: Signature, value: Option<Box<Variant>> },
    Array { elem: Signature, items: Vec<Variant> },
    Tuple { sig: Signature, items: Vec<Variant> },
}

/// The model of a [`Variant`].
pub open spec fn vview(v: Variant) -> VariantView
    decreases v, 1int,
    via vview_decreases
{
    match v {
        Variant::Bool(b) => VariantView::Bool(b),
        Variant::Int32(x) => VariantView::Int32(x),
        Variant::Maybe { inner, value } => VariantView::Maybe {
            inner: inner@,
            value: match value {
                Some(b) => seq![vview(*b)],
                None => Seq::empty(),
            },
        },
        Variant::Array { elem, items } => VariantView::Array { elem: elem@, items: vviews(items@) },
        Variant::Tuple { sig, items } => VariantView::Tuple { sig: sig@, items: vviews(items@) },
    }
}

/// The models of a sequence of values, element by element.
pub open spec fn vviews(items: Seq<Variant>) -> Seq<VariantView>
    decreases items, 0int,
{
    if items.len() == 0 {
        Seq::empty()
    } else {
        seq![vview(items[0])] + vviews(items.skip(1))
    }
}

/// The model of a sequence of values is the sequence of the models.
pub broadcast proof fn lemma_vviews(items: Seq<Variant>)
    ensures
        (#[trigger] vviews(items)).len() == items.len(),
        forall|i: int| 0 <= i < items.len() ==> vviews(items)[i] == vview(items[i]),
    decreases items.len(),
{
    if items.len() > 0 {
        lemma_vviews(items.skip(1));
        assert forall|i: int| 0 <= i < items.len() implies vviews(items)[i] == vview(items[i]) by {
            if i > 0 {
                assert(vviews(items)[i] == vviews(items.skip(1))[i - 1]);
            }
        }
    }
}

/// Appending a value appends its model.
pub proof fn lemma_vviews_push(items: Seq<Variant>, v: Variant)
    ensures
        vviews(items.push(v)) == vviews(items).push(vview(v)),
{
    lemma_vviews(items);
    lemma_vviews(items.push(v));
    assert(vviews(items.push(v)) =~= vviews(items).push(vview(v)));
}

#[via_fn]
proof fn vview_decreases(v: Variant) {
    match v {
        Variant::Array { elem, items } => {
            assert(decreases_to!(v => items));
            vstd::std_specs::vec::axiom_vec_decreases_to_view(items);
            assert(decreases_to!(v => items@));
        },
        Variant::Tuple { sig, items } => {
            assert(decreases_to!(v => items));
            vstd::std_specs::vec::axiom_vec_decreases_to_view(items);
            assert(decreases_to!(v => items@));
        },
        _ => {},
    }
}

impl View for Variant {
    type V = VariantView;

    open spec fn view(&self) -> VariantView {
        vview(*self)
    }
}

/// The runtime type tag of a value, as a signature byte string.
pub open spec fn view_tag(v: VariantView) -> Seq<u8> {
    match v {
        VariantView::Bool(_) => seq![BOOL_TAG],
        VariantView::Int32(_) => seq![INT32_TAG],
        VariantView::Maybe { inner, .. } => seq![MAYBE_TAG] + inner,
        VariantView::Array { elem, .. } => seq![ARRAY_TAG] + elem,
        VariantView::Tuple { sig, .. } => sig,
    }
}

/// The tags of each value in a sequence of values.
pub open spec fn view_tags(items: Seq<VariantView>) -> Seq<Seq<u8>> {
    Seq::new(items.len(), |i: int| view_tag(items[i]))
}

/// Internal consistency of a value: every child carries the tag its
/// container's signature announces for it.
pub open spec fn wf_view(v: VariantView) -> bool
    decreases v,
{
    match v {
        VariantView::Bool(_) => true,
        VariantView::Int32(_) => true,
        VariantView::Maybe { inner, value } => {
            &&& valid_sig(inner)
            &&& value.len() <= 1
            &&& forall|i: int|
                0 <= i < value.len() ==> wf_view(#[trigger] value[i]) && view_tag(value[i]) == inner
        },
        VariantView::Array { elem, items } => {
            &&& valid_sig(elem)
            &&& forall|i: int|
                0 <= i < items.len() ==> wf_view(#[trigger] items[i]) && view_tag(items[i]) == elem
        },
        VariantView::Tuple { sig, items } => {
            &&& valid_sig(sig)
            &&& sig == seq![TUPLE_OPEN] + concat_all(view_tags(items)) + seq![TUPLE_CLOSE]
            &&& forall|i: int| 0 <= i < items.len() ==> wf_view(#[trigger] items[i])
        },
    }
}

impl Variant {
    /// The value's runtime type tag.
    pub fn type_tag(&self) -> (r: Signature)
        ensures
            r@ == view_tag(self@),
    {
        match self {
            Variant::Bool(_) => Signature::boolean(),
            Variant::Int32(_) => Signature::int32(),
            Variant::Maybe { inner, .. } => inner.maybe_of(),
            Variant::Array { elem, .. } => elem.array_of(),
            Variant::Tuple { sig, .. } => sig.duplicate(),
        }
    }

    /// Wraps a value as a present ("some") maybe of its own type.
    pub fn from_some(v: Variant) -> (r: Variant)
        ensures
            r@ == (VariantView::Maybe { inner: view_tag(v@), value: seq![v@] }),
    {
        let inner = v.type_tag();
        Variant::Maybe { inner, value: Some(Box::new(v)) }
    }

    /// An absent ("none") maybe, carrying only the signature of the value
    /// it does not hold.
    pub fn from_none(inner: &Signature) -> (r: Variant)
        ensures
            r@ == (VariantView::Maybe { inner: inner@, value: Seq::empty() }),
    {
        Variant::Maybe { inner: inner.duplicate(), value: None }
    }

    /// The payload of a maybe value: the held value if present, `None` if
    /// the maybe is absent or this value is no maybe at all.
    pub fn as_maybe(&self) -> (r: Option<&Variant>)
        ensures
            match r {
                Some(b) => self@ matches VariantView::Maybe { value, .. } && value == seq![b@],
                None => !(self@ matches VariantView::Maybe { value, .. } && value.len() == 1),
            },
    {
        match self {
            Variant::Maybe { value: Some(b), .. } => Some(&**b),
            _ => None,
        }
    }

    /// The payload of a boolean value.
    pub fn bool_value(&self) -> (r: Option<bool>)
        ensures
            match r {
                Some(b) => self@ == VariantView::Bool(b),
                None => !(self@ matches VariantView::Bool(_)),
            },
    {
        match self {
            Variant::Bool(b) => Some(*b),
            _ => None,
        }
    }

    /// The payload of a 32-bit integer value.
    pub fn int32_value(&self) -> (r: Option<i32>)
        ensures
            match r {
                Some(x) => self@ == VariantView::Int32(x),
                None => !(self@ matches VariantView::Int32(_)),
            },
    {
        match self {
            Variant::Int32(x) => Some(*x),
            _ => None,
        }
    }

    /// The children of an array or tuple value.
    pub fn children(&self) -> (r: Option<&Vec<Variant>>)
        ensures
            match r {
                Some(cs) => (self@ matches VariantView::Array { items, .. } && items == vviews(
                    cs@,
                )) || (self@ matches VariantView::Tuple { items, .. } && items == vviews(cs@)),
                None => {
                    &&& !(self@ matches VariantView::Array { .. })
                    &&& !(self@ matches VariantView::Tuple { .. })
                },
            },
    {
        match self {
            Variant::Array { items, .. } => Some(items),
            Variant::Tuple { items, .. } => Some(items),
            _ => None,
        }
    }
}

} // verus!
