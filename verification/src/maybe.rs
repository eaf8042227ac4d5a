//! The optional ("maybe") wrapping transform over any [`ValueType`].
//!
//! A maybe-wrapped value carries the maybe tag prefixed to the inner
//! type's signature.  A present value wraps the inner encoding; an absent
//! value carries only the inner signature, so a decoder can still tell
//! which "nothing" it holds.

use vstd::prelude::*;

use crate::signature::{valid_sig, Signature, MAYBE_TAG};
use crate::value::ValueType;
use crate::variant::{view_tag, vview, wf_view, Variant, VariantView};

verus! {

/// The signature of the maybe wrapping of a type with signature `inner`:
/// the maybe tag concatenated with `inner`, exactly, with nothing in
/// between.
pub open spec fn spec_maybe_sig(inner: Seq<u8>) -> Seq<u8> {
    seq![MAYBE_TAG] + inner
}

/// The model of the maybe encoding of an optional value.
pub open spec fn spec_encode_maybe<T: ValueType>(value: Option<T>) -> VariantView {
    match value {
        Some(x) => VariantView::Maybe {
            inner: T::spec_signature(),
            value: seq![x.spec_encode()],
        },
        None => VariantView::Maybe { inner: T::spec_signature(), value: Seq::empty() },
    }
}

/// Two byte strings with the same head byte and equal extensions are
/// equal.
proof fn lemma_head_cancel(c: u8, a: Seq<u8>, b: Seq<u8>)
    requires
        seq![c] + a == seq![c] + b,
    ensures
        a == b,
{
    assert(a =~= b) by {
        assert((seq![c] + a).len() == 1 + a.len());
        assert((seq![c] + b).len() == 1 + b.len());
        assert(a.len() == b.len());
        assert forall|i: int| 0 <= i < a.len() implies a[i] == b[i] by {
            assert((seq![c] + a)[i + 1] == a[i]);
            assert((seq![c] + b)[i + 1] == b[i]);
        }
    }
}

/// The signature of `Option<T>`: the maybe tag prefixed to `T`'s own
/// signature.  The composed byte string is always itself a complete
/// signature, so this construction cannot fail.
pub fn static_signature_of_maybe<T: ValueType>() -> (s: Signature)
    ensures
        s@ == spec_maybe_sig(T::spec_signature()),
        valid_sig(s@),
{
    let inner = T::static_signature();
    proof {
        T::lemma_sig_valid();
        crate::signature::lemma_wrap_valid(MAYBE_TAG, inner@);
    }
    inner.maybe_of()
}

/// Encodes an optional value: a present value wraps `T`'s own encoding as
/// a "some" maybe; an absent value yields a "none" maybe tagged with `T`'s
/// signature and carrying no payload.
pub fn encode_maybe<T: ValueType>(value: &Option<T>) -> (r: Variant)
    ensures
        r@ == spec_encode_maybe::<T>(*value),
        wf_view(r@),
        view_tag(r@) == spec_maybe_sig(T::spec_signature()),
{
    proof {
        T::lemma_sig_valid();
    }
    match value {
        Some(x) => {
            proof {
                x.lemma_encode_wf();
            }
            Variant::from_some(x.encode())
        },
        None => {
            let inner = T::static_signature();
            Variant::from_none(&inner)
        },
    }
}

/// Decodes an optional value.  Yields `None` whenever the variant's
/// runtime tag is not exactly `T`'s maybe signature, and whenever a
/// present payload is no encoding of a value of `T`; otherwise yields the
/// decoded optional value.
pub fn decode_maybe<T: ValueType>(variant: &Variant) -> (r: Option<Option<T>>)
    ensures
        r matches Some(ov) ==> variant@ == spec_encode_maybe::<T>(ov),
        forall|ov: Option<T>| variant@ == #[trigger] spec_encode_maybe::<T>(ov) ==> r == Some(ov),
        view_tag(variant@) != spec_maybe_sig(T::spec_signature()) ==> r is None,
{
    let tag = variant.type_tag();
    let expected = static_signature_of_maybe::<T>();
    if !tag.equals(&expected) {
        proof {
            assert forall|ov: Option<T>|
                variant@ == #[trigger] spec_encode_maybe::<T>(ov) implies false by {
                assert(view_tag(variant@) == spec_maybe_sig(T::spec_signature()));
            }
        }
        return None;
    }
    proof {
        assert(view_tag(variant@) == spec_maybe_sig(T::spec_signature()));
    }
    match variant {
        Variant::Maybe { value: Some(b), inner } => {
            proof {
                lemma_head_cancel(MAYBE_TAG, inner@, T::spec_signature());
                assert(variant@ == (VariantView::Maybe {
                    inner: T::spec_signature(),
                    value: seq![vview(**b)],
                }));
            }
            match T::decode(b) {
                Some(x) => {
                    proof {
                        assert(vview(**b) == x.spec_encode());
                        assert(seq![vview(**b)] =~= seq![x.spec_encode()]);
                        assert(variant@ == spec_encode_maybe::<T>(Some(x)));
                        assert forall|ov: Option<T>|
                            variant@ == #[trigger] spec_encode_maybe::<T>(ov) implies ov == Some(
                            x,
                        ) by {
                            match ov {
                                Some(y) => {
                                    assert(seq![vview(**b)] == seq![y.spec_encode()]);
                                    assert(vview(**b) == seq![y.spec_encode()][0]);
                                    assert(vview(**b) == y.spec_encode());
                                },
                                None => {
                                    assert(seq![vview(**b)].len() == 1);
                                },
                            }
                        }
                    }
                    Some(Some(x))
                },
                None => {
                    proof {
                        assert forall|ov: Option<T>|
                            variant@ == #[trigger] spec_encode_maybe::<T>(ov) implies false by {
                            match ov {
                                Some(y) => {
                                    assert(seq![vview(**b)] == seq![y.spec_encode()]);
                                    assert(vview(**b) == seq![y.spec_encode()][0]);
                                    assert(vview(**b) == y.spec_encode());
                                },
                                None => {
                                    assert(seq![vview(**b)].len() == 1);
                                },
                            }
                        }
                    }
                    None
                },
            }
        },
        Variant::Maybe { value: None, inner } => {
            proof {
                lemma_head_cancel(MAYBE_TAG, inner@, T::spec_signature());
                assert(variant@ == spec_encode_maybe::<T>(None::<T>));
                assert forall|ov: Option<T>|
                    variant@ == #[trigger] spec_encode_maybe::<T>(ov) implies ov == None::<T> by {
                    match ov {
                        Some(y) => {
                            assert(seq![y.spec_encode()].len() == 1);
                        },
                        None => {},
                    }
                }
            }
            Some(None)
        },
        _ => {
            None
        },
    }
}

/// The maybe wrapping is itself a [`ValueType`], so wrappings compose:
/// `Option<Option<T>>` carries two maybe tags before `T`'s signature.
impl<T: ValueType> ValueType for Option<T> {
    open spec fn spec_signature() -> Seq<u8> {
        spec_maybe_sig(T::spec_signature())
    }

    open spec fn spec_encode(&self) -> VariantView {
        spec_encode_maybe::<T>(*self)
    }

    proof fn lemma_sig_valid() {
        T::lemma_sig_valid();
        crate::signature::lemma_wrap_valid(MAYBE_TAG, T::spec_signature());
    }

    proof fn lemma_encode_wf(&self) {
        T::lemma_sig_valid();
        match self {
            Some(x) => {
                x.lemma_encode_wf();
                assert(seq![x.spec_encode()][0] == x.spec_encode());
            },
            None => {},
        }
    }

    fn static_signature() -> (s: Signature) {
        static_signature_of_maybe::<T>()
    }

    fn encode(&self) -> (v: Variant) {
        encode_maybe::<T>(self)
    }

    fn decode(v: &Variant) -> (r: Option<Option<T>>) {
        decode_maybe::<T>(v)
    }
}

/// Round trip: decoding an encoded optional value yields exactly the
/// value that was encoded, in the present and in the absent case alike.
pub fn maybe_round_trip<T: ValueType>(value: &Option<T>) -> (r: Option<Option<T>>)
    ensures
        r matches Some(ov) && ov == *value,
{
    let v = encode_maybe(value);
    decode_maybe::<T>(&v)
}

} // verus!
