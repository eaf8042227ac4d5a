//! The capability a type must supply to take part in the codec: a static
//! signature, an encoder and a decoder, together with the laws that tie
//! them to the mathematical model.

use vstd::prelude::*;

use crate::signature::{valid_sig, Signature, BOOL_TAG, INT32_TAG, lemma_base_sigs};
use crate::variant::{view_tag, wf_view, Variant, VariantView};

verus! {

/// A type that can be tagged, encoded and decoded.
///
/// `spec_signature` and `spec_encode` are the mathematical statements of
/// the type's tag and encoding; the executable triple is pinned to them,
/// and the two proof obligations keep every implementation honest:
/// encodings are internally consistent and carry the declared tag.
pub trait ValueType: Sized {
    /// The type's signature, as a byte string.
    spec fn spec_signature() -> Seq<u8>;

    /// The model of the encoding of a value.
    spec fn spec_encode(&self) -> VariantView;

    /// The declared signature is a complete signature.
    proof fn lemma_sig_valid()
        ensures
            valid_sig(Self::spec_signature()),
    ;

    /// Every encoding is internally consistent and carries the declared
    /// signature as its tag.
    proof fn lemma_encode_wf(&self)
        ensures
            wf_view(self.spec_encode()),
            view_tag(self.spec_encode()) == Self::spec_signature(),
    ;

    /// The type's signature.
    fn static_signature() -> (s: Signature)
        ensures
            s@ == Self::spec_signature(),
    ;

    /// Encodes a value as a self-describing [`Variant`].
    fn encode(&self) -> (v: Variant)
        ensures
            v@ == self.spec_encode(),
    ;

    /// Decodes a value back from a [`Variant`]; yields `None` exactly on
    /// variants that are no encoding of any value of the type.
    fn decode(v: &Variant) -> (r: Option<Self>)
        ensures
            r matches Some(x) ==> v@ == x.spec_encode(),
            forall|x: Self| v@ == #[trigger] x.spec_encode() ==> r == Some(x),
    ;
}

impl ValueType for i32 {
    open spec fn spec_signature() -> Seq<u8> {
        seq![INT32_TAG]
    }

    open spec fn spec_encode(&self) -> VariantView {
        VariantView::Int32(*self)
    }

    proof fn lemma_sig_valid() {
        lemma_base_sigs();
    }

    proof fn lemma_encode_wf(&self) {
    }

    fn static_signature() -> (s: Signature) {
        Signature::int32()
    }

    fn encode(&self) -> (v: Variant) {
        Variant::Int32(*self)
    }

    fn decode(v: &Variant) -> (r: Option<i32>) {
        match v {
            Variant::Int32(x) => Some(*x),
            _ => None,
        }
    }
}

impl ValueType for bool {
    open spec fn spec_signature() -> Seq<u8> {
        seq![BOOL_TAG]
    }

    open spec fn spec_encode(&self) -> VariantView {
        VariantView::Bool(*self)
    }

    proof fn lemma_sig_valid() {
        lemma_base_sigs();
    }

    proof fn lemma_encode_wf(&self) {
    }

    fn static_signature() -> (s: Signature) {
        Signature::boolean()
    }

    fn encode(&self) -> (v: Variant) {
        Variant::Bool(*self)
    }

    fn decode(v: &Variant) -> (r: Option<bool>) {
        match v {
            Variant::Bool(b) => Some(*b),
            _ => None,
        }
    }
}

} // verus!
