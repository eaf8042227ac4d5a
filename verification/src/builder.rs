//! The builder/container protocol: an owned accumulator that sequences
//! values into one finalized [`Variant`].
//!
//! A builder is created for one container signature and accumulates child
//! values at the current nesting depth.  [`VariantBuilder::open`] begins a
//! nested container region; [`VariantBuilder::close`] seals the innermost
//! open region back into its parent, exactly once; [`VariantBuilder::end`]
//! consumes the builder and yields the finished value.  The contracts make
//! misuse unprovable for verified callers: a value of the wrong type cannot
//! be added, a region cannot be closed twice, and a builder with an open
//! region or an unfilled tuple cannot be finalized.  A builder that is
//! dropped instead of finalized releases everything it accumulated through
//! ordinary ownership.

use vstd::prelude::*;

use crate::signature::{
    is_container_tag, lemma_tuple_decompose, lemma_unwrap_valid, sig_list_comps, valid_sig,
    ARRAY_TAG, MAYBE_TAG, Signature, TUPLE_OPEN, concat_all,
};
use crate::value::ValueType;
use crate::variant::{
    lemma_vviews, lemma_vviews_push, view_tag, view_tags, vview, vviews, wf_view, Variant,
    VariantView,
};

verus! {

broadcast use vstd::seq::group_seq_axioms, crate::variant::lemma_vviews;

/// The model of one nesting level of a builder: the signature the level
/// was opened with, and the values accumulated in it so far.
#[verifier::ext_equal]
pub struct FrameView {
    pub sig: Seq<u8>,
    pub items: Seq<VariantView>,
}

/// Whether the level described by `f` accepts one more value with tag
/// `tag`: an array accepts any number of values of its element type, a
/// maybe at most one value of its inner type, and a tuple the next of its
/// component types in order.
pub open spec fn frame_accepts(f: FrameView, tag: Seq<u8>) -> bool {
    if f.sig.len() > 0 && f.sig[0] == ARRAY_TAG {
        tag == f.sig.skip(1)
    } else if f.sig.len() > 0 && f.sig[0] == MAYBE_TAG {
        f.items.len() == 0 && tag == f.sig.skip(1)
    } else {
        f.items.len() < sig_list_comps(f.sig.skip(1)).len() && tag == sig_list_comps(
            f.sig.skip(1),
        )[f.items.len() as int]
    }
}

/// Whether the level described by `f` may be sealed: a tuple must hold a
/// value for each of its components; arrays and maybes may seal at any
/// point.
pub open spec fn frame_complete(f: FrameView) -> bool {
    f.sig.len() > 0 && f.sig[0] == TUPLE_OPEN ==> f.items.len() == sig_list_comps(
        f.sig.skip(1),
    ).len()
}

/// The value a sealed level becomes.
pub open spec fn seal(f: FrameView) -> VariantView {
    if f.sig.len() > 0 && f.sig[0] == ARRAY_TAG {
        VariantView::Array { elem: f.sig.skip(1), items: f.items }
    } else if f.sig.len() > 0 && f.sig[0] == MAYBE_TAG {
        VariantView::Maybe { inner: f.sig.skip(1), value: f.items }
    } else {
        VariantView::Tuple { sig: f.sig, items: f.items }
    }
}

/// The frames after the innermost open region is sealed into its parent.
pub open spec fn closed_frames(fs: Seq<FrameView>) -> Seq<FrameView> {
    let parent = fs[fs.len() - 2];
    fs.take(fs.len() - 2).push(
        FrameView { sig: parent.sig, items: parent.items.push(seal(fs.last())) },
    )
}

/// Internal consistency of one level: a valid container signature, and
/// every held value accepted, in order, by the level that held the values
/// before it.
spec fn frame_wf(f: FrameView) -> bool {
    &&& is_container_tag(f.sig)
    &&& valid_sig(f.sig)
    &&& forall|j: int| 0 <= j < f.items.len() ==> wf_view(#[trigger] f.items[j])
    &&& forall|j: int|
        0 <= j < f.items.len() ==> frame_accepts(
            FrameView { sig: f.sig, items: f.items.take(j) },
            view_tag(#[trigger] f.items[j]),
        )
}

/// A sealed, internally consistent and complete level is an internally
/// consistent value whose tag is the level's own signature.
proof fn lemma_seal_ok(f: FrameView)
    requires
        frame_wf(f),
        frame_complete(f),
    ensures
        wf_view(seal(f)),
        view_tag(seal(f)) == f.sig,
{
    if f.sig[0] == ARRAY_TAG || f.sig[0] == MAYBE_TAG {
        lemma_unwrap_valid(f.sig);
        assert forall|j: int| 0 <= j < f.items.len() implies view_tag(#[trigger] f.items[j])
            == f.sig.skip(1) by {
            assert(frame_accepts(
                FrameView { sig: f.sig, items: f.items.take(j) },
                view_tag(f.items[j]),
            ));
        }
        if f.sig[0] == MAYBE_TAG && f.items.len() >= 1 {
            assert(f.items.len() <= 1) by {
                if f.items.len() >= 2 {
                    assert(frame_accepts(
                        FrameView { sig: f.sig, items: f.items.take(1) },
                        view_tag(f.items[1]),
                    ));
                    assert(f.items.take(1).len() == 1);
                }
            }
        }
        assert(view_tag(seal(f)) =~= f.sig);
    } else {
        let comps = sig_list_comps(f.sig.skip(1));
        lemma_tuple_decompose(f.sig);
        assert forall|j: int| 0 <= j < f.items.len() implies view_tag(#[trigger] f.items[j])
            == comps[j] by {
            assert(frame_accepts(
                FrameView { sig: f.sig, items: f.items.take(j) },
                view_tag(f.items[j]),
            ));
            assert(f.items.take(j).len() == j);
        }
        assert(view_tags(f.items) =~= comps);
        assert(concat_all(view_tags(f.items)) == concat_all(comps));
    }
}

/// A level extended with one accepted, internally consistent value is
/// still internally consistent.
proof fn lemma_frame_wf_push(f: FrameView, v: VariantView)
    requires
        frame_wf(f),
        wf_view(v),
        frame_accepts(f, view_tag(v)),
    ensures
        frame_wf(FrameView { sig: f.sig, items: f.items.push(v) }),
{
    let g = FrameView { sig: f.sig, items: f.items.push(v) };
    assert forall|j: int| 0 <= j < g.items.len() implies wf_view(#[trigger] g.items[j]) by {
        if j < f.items.len() {
            assert(g.items[j] == f.items[j]);
        } else {
            assert(g.items[j] == v);
        }
    }
    assert forall|j: int| 0 <= j < g.items.len() implies frame_accepts(
        FrameView { sig: g.sig, items: g.items.take(j) },
        view_tag(#[trigger] g.items[j]),
    ) by {
        if j < f.items.len() {
            assert(g.items.take(j) =~= f.items.take(j));
            assert(g.items[j] == f.items[j]);
            assert(frame_accepts(
                FrameView { sig: f.sig, items: f.items.take(j) },
                view_tag(f.items[j]),
            ));
        } else {
            assert(g.items.take(j) =~= f.items);
            assert(g.items[j] == v);
        }
    }
}

struct Frame {
    sig: Signature,
    items: Vec<Variant>,
}

/// An exclusively owned accumulator, bound at construction to one
/// container signature, that sequences values and nested regions into one
/// finalized [`Variant`].
pub struct VariantBuilder {
    frames: Vec<Frame>,
}

impl View for VariantBuilder {
    type V = Seq<FrameView>;

    closed spec fn view(&self) -> Seq<FrameView> {
        Seq::new(
            self.frames@.len(),
            |i: int|
                FrameView {
                    sig: self.frames@[i].sig@,
                    items: vviews(self.frames@[i].items@),
                },
        )
    }
}

impl VariantBuilder {
    #[verifier::type_invariant]
    spec fn type_inv(self) -> bool {
        &&& forall|i: int| 0 <= i < self@.len() ==> frame_wf(#[trigger] self@[i])
        &&& forall|i: int|
            0 <= i < self@.len() - 1 ==> frame_accepts(#[trigger] self@[i], self@[i + 1].sig)
    }

    /// A fresh builder accumulating values that conform to the container
    /// signature `target`.
    pub fn new(target: Signature) -> (b: VariantBuilder)
        requires
            is_container_tag(target@),
        ensures
            b@ == seq![FrameView { sig: target@, items: Seq::empty() }],
    {
        proof {
            use_type_invariant(&target);
        }
        let ghost tv = target@;
        let mut frames: Vec<Frame> = Vec::new();
        frames.push(Frame { sig: target, items: Vec::new() });
        let b = VariantBuilder { frames };
        proof {
            assert(b@ =~~= seq![FrameView { sig: tv, items: Seq::empty() }]);
        }
        b
    }

    /// The number of nesting levels currently held: 1 when no region is
    /// open, one more for each open region.
    pub fn depth(&self) -> (n: usize)
        ensures
            n == self@.len(),
    {
        self.frames.len()
    }

    /// Appends an already encoded value at the current nesting depth.
    pub fn add_value(&mut self, value: Variant)
        requires
            old(self)@.len() > 0,
            wf_view(value@),
            frame_accepts(old(self)@.last(), view_tag(value@)),
        ensures
            final(self)@ == old(self)@.update(
                old(self)@.len() - 1,
                FrameView {
                    sig: old(self)@.last().sig,
                    items: old(self)@.last().items.push(value@),
                },
            ),
    {
        proof {
            use_type_invariant(&*self);
        }
        let ghost pre = self@;
        let ghost gv = value@;
        let mut frames: Vec<Frame> = Vec::new();
        std::mem::swap(&mut frames, &mut self.frames);
        let mut top = frames.pop().unwrap();
        proof {
            lemma_vviews_push(top.items@, value);
        }
        top.items.push(value);
        frames.push(top);
        proof {
            let n = pre.len() - 1;
            let post = pre.update(
                n,
                FrameView { sig: pre.last().sig, items: pre.last().items.push(gv) },
            );
            lemma_frame_wf_push(pre.last(), gv);
            assert forall|i: int| 0 <= i < post.len() implies frame_wf(#[trigger] post[i]) by {
                if i < n {
                    assert(post[i] == pre[i]);
                } else {
                    assert(post[i] == (FrameView {
                        sig: pre.last().sig,
                        items: pre.last().items.push(gv),
                    }));
                }
            }
            assert forall|i: int| 0 <= i < post.len() - 1 implies frame_accepts(
                #[trigger] post[i],
                post[i + 1].sig,
            ) by {
                assert(post[i] == pre[i]);
                assert(post[i + 1].sig == pre[i + 1].sig);
                assert(frame_accepts(pre[i], pre[i + 1].sig));
            }
            assert forall|i: int| 0 <= i < frames@.len() implies (FrameView {
                sig: frames@[i].sig@,
                items: vviews(frames@[i].items@),
            }) == post[i] by {
                if i < n {
                    assert(pre[i] == (FrameView {
                        sig: frames@[i].sig@,
                        items: vviews(frames@[i].items@),
                    }));
                }
            }
            let ghost bnew = VariantBuilder { frames };
            assert(bnew@ =~~= post);
            assert forall|i: int| 0 <= i < bnew@.len() implies frame_wf(#[trigger] bnew@[i]) by {
                assert(bnew@[i] == post[i]);
            }
            assert forall|i: int| 0 <= i < bnew@.len() - 1 implies frame_accepts(
                #[trigger] bnew@[i],
                bnew@[i + 1].sig,
            ) by {
                assert(bnew@[i] == post[i]);
                assert(bnew@[i + 1] == post[i + 1]);
            }
            assert(bnew.type_inv());
        }
        self.frames = frames;
        proof {
            assert(self@ =~~= pre.update(
                pre.len() - 1,
                FrameView { sig: pre.last().sig, items: pre.last().items.push(gv) },
            ));
        }
    }

    /// Encodes a value and appends it at the current nesting depth.
    pub fn add<T: ValueType>(&mut self, value: &T)
        requires
            old(self)@.len() > 0,
            frame_accepts(old(self)@.last(), T::spec_signature()),
        ensures
            final(self)@ == old(self)@.update(
                old(self)@.len() - 1,
                FrameView {
                    sig: old(self)@.last().sig,
                    items: old(self)@.last().items.push(value.spec_encode()),
                },
            ),
    {
        proof {
            value.lemma_encode_wf();
        }
        let v = value.encode();
        self.add_value(v);
    }

    /// Begins a nested container region of signature `sig` at the current
    /// nesting depth.  The region must be closed before the enclosing one
    /// can take further values, be closed, or be finalized.
    pub fn open(&mut self, sig: Signature)
        requires
            old(self)@.len() > 0,
            is_container_tag(sig@),
            frame_accepts(old(self)@.last(), sig@),
        ensures
            final(self)@ == old(self)@.push(FrameView { sig: sig@, items: Seq::empty() }),
    {
        proof {
            use_type_invariant(&*self);
            use_type_invariant(&sig);
        }
        let ghost pre = self@;
        let ghost sv = sig@;
        let mut frames: Vec<Frame> = Vec::new();
        std::mem::swap(&mut frames, &mut self.frames);
        frames.push(Frame { sig, items: Vec::new() });
        proof {
            let post = pre.push(FrameView { sig: sv, items: Seq::empty() });
            assert forall|i: int| 0 <= i < post.len() implies frame_wf(#[trigger] post[i]) by {
                if i < pre.len() {
                    assert(post[i] == pre[i]);
                } else {
                    assert(post[i] == (FrameView { sig: sv, items: Seq::<VariantView>::empty() }));
                }
            }
            assert forall|i: int| 0 <= i < post.len() - 1 implies frame_accepts(
                #[trigger] post[i],
                post[i + 1].sig,
            ) by {
                assert(post[i] == pre[i]);
                if i < pre.len() - 1 {
                    assert(post[i + 1].sig == pre[i + 1].sig);
                    assert(frame_accepts(pre[i], pre[i + 1].sig));
                } else {
                    assert(post[i + 1].sig == sv);
                }
            }
            assert forall|i: int| 0 <= i < frames@.len() implies (FrameView {
                sig: frames@[i].sig@,
                items: vviews(frames@[i].items@),
            }) == post[i] by {
                if i < pre.len() {
                    assert(pre[i] == (FrameView {
                        sig: frames@[i].sig@,
                        items: vviews(frames@[i].items@),
                    }));
                } else {
                    assert(vviews(frames@[i].items@) =~= Seq::<VariantView>::empty());
                }
            }
            let ghost bnew = VariantBuilder { frames };
            assert(bnew@ =~~= post);
            assert forall|i: int| 0 <= i < bnew@.len() implies frame_wf(#[trigger] bnew@[i]) by {
                assert(bnew@[i] == post[i]);
            }
            assert forall|i: int| 0 <= i < bnew@.len() - 1 implies frame_accepts(
                #[trigger] bnew@[i],
                bnew@[i + 1].sig,
            ) by {
                assert(bnew@[i] == post[i]);
                assert(bnew@[i + 1] == post[i + 1]);
            }
            assert(bnew.type_inv());
        }
        self.frames = frames;
        proof {
            assert(self@ =~~= pre.push(FrameView { sig: sv, items: Seq::empty() }));
        }
    }

    /// Seals the innermost open region, exactly once, back into its
    /// parent, where it counts as one added value.
    pub fn close(&mut self)
        requires
            old(self)@.len() >= 2,
            frame_complete(old(self)@.last()),
        ensures
            final(self)@ == closed_frames(old(self)@),
    {
        proof {
            use_type_invariant(&*self);
            lemma_seal_ok(old(self)@.last());
        }
        let ghost pre = self@;
        let mut frames: Vec<Frame> = Vec::new();
        std::mem::swap(&mut frames, &mut self.frames);
        let child = frames.pop().unwrap();
        let ghost childv = pre.last();
        proof {
            assert(childv == (FrameView { sig: child.sig@, items: vviews(child.items@) }));
            if child.sig@[0] == MAYBE_TAG {
                assert(vviews(child.items@).len() <= 1);
            }
        }
        let v = seal_frame(child);
        let mut parent = frames.pop().unwrap();
        proof {
            lemma_vviews_push(parent.items@, v);
        }
        parent.items.push(v);
        frames.push(parent);
        proof {
            let n = pre.len() - 2;
            let post = closed_frames(pre);
            assert(frame_accepts(pre[n], pre[n + 1].sig));
            lemma_frame_wf_push(pre[n], seal(pre.last()));
            assert forall|i: int| 0 <= i < post.len() implies frame_wf(#[trigger] post[i]) by {
                if i < n {
                    assert(post[i] == pre[i]);
                } else {
                    assert(post[i] == (FrameView {
                        sig: pre[n].sig,
                        items: pre[n].items.push(seal(pre.last())),
                    }));
                }
            }
            assert forall|i: int| 0 <= i < post.len() - 1 implies frame_accepts(
                #[trigger] post[i],
                post[i + 1].sig,
            ) by {
                assert(post[i] == pre[i]);
                assert(post[i + 1].sig == pre[i + 1].sig);
                assert(frame_accepts(pre[i], pre[i + 1].sig));
            }
            assert forall|i: int| 0 <= i < frames@.len() implies (FrameView {
                sig: frames@[i].sig@,
                items: vviews(frames@[i].items@),
            }) == post[i] by {
                if i < n {
                    assert(pre[i] == (FrameView {
                        sig: frames@[i].sig@,
                        items: vviews(frames@[i].items@),
                    }));
                }
            }
            let ghost bnew = VariantBuilder { frames };
            assert(bnew@ =~~= post);
            assert forall|i: int| 0 <= i < bnew@.len() implies frame_wf(#[trigger] bnew@[i]) by {
                assert(bnew@[i] == post[i]);
            }
            assert forall|i: int| 0 <= i < bnew@.len() - 1 implies frame_accepts(
                #[trigger] bnew@[i],
                bnew@[i + 1].sig,
            ) by {
                assert(bnew@[i] == post[i]);
                assert(bnew@[i + 1] == post[i + 1]);
            }
            assert(bnew.type_inv());
        }
        self.frames = frames;
        proof {
            assert(self@ =~~= closed_frames(pre));
        }
    }

    /// Consumes the builder and finalizes everything it accumulated into
    /// one immutable value tagged with the builder's own signature.
    pub fn end(self) -> (v: Variant)
        requires
            self@.len() == 1,
            frame_complete(self@[0]),
        ensures
            v@ == seal(self@[0]),
            wf_view(v@),
            view_tag(v@) == self@[0].sig,
    {
        proof {
            use_type_invariant(&self);
            lemma_seal_ok(self@[0]);
        }
        let ghost f0 = self@[0];
        let VariantBuilder { mut frames } = self;
        let top = frames.pop().unwrap();
        proof {
            assert(f0 == (FrameView { sig: top.sig@, items: vviews(top.items@) }));
            if top.sig@[0] == MAYBE_TAG {
                assert(vviews(top.items@).len() <= 1);
            }
        }
        seal_frame(top)
    }
}

fn seal_frame(f: Frame) -> (v: Variant)
    requires
        is_container_tag(f.sig@),
        f.sig@[0] == MAYBE_TAG ==> f.items@.len() <= 1,
    ensures
        v@ == seal(FrameView { sig: f.sig@, items: vviews(f.items@) }),
{
    let Frame { sig, items } = f;
    proof {
        use_type_invariant(&sig);
    }
    let c = sig.first();
    if c == ARRAY_TAG {
        Variant::Array { elem: sig.inner(), items }
    } else if c == MAYBE_TAG {
        let ghost gitems = items@;
        let mut items = items;
        let value = match items.pop() {
            Some(x) => {
                proof {
                    assert(vviews(gitems) =~= seq![vview(x)]);
                }
                Some(Box::new(x))
            },
            None => {
                proof {
                    assert(vviews(gitems) =~= Seq::<VariantView>::empty());
                }
                None
            },
        };
        Variant::Maybe { inner: sig.inner(), value }
    } else {
        Variant::Tuple { sig, items }
    }
}

} // verus!
