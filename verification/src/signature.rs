//! Type signatures: canonical string descriptors of a value's shape.
//!
//! The grammar of a signature is
//!
//! ```text
//! SIG ::= 'b'            (boolean)
//!       | 'i'            (32-bit integer)
//!       | 'm' SIG        (maybe / optional wrapping)
//!       | 'a' SIG        (array of)
//!       | '(' SIG* ')'   (tuple)
//! ```
//!
//! [`Signature`] owns a byte string that is a single complete signature; the
//! well-formedness is a type invariant established by every constructor.

use vstd::prelude::*;

verus! {

/// Tag byte of the boolean signature.
pub const BOOL_TAG: u8 = 98;

/// Tag byte of the 32-bit integer signature.
pub const INT32_TAG: u8 = 105;

/// Tag byte that prefixes a maybe (optional) signature.
pub const MAYBE_TAG: u8 = 109;

/// Tag byte that prefixes an array signature.
pub const ARRAY_TAG: u8 = 97;

/// Opening tag byte of a tuple signature.
pub const TUPLE_OPEN: u8 = 40;

/// Closing tag byte of a tuple signature.
pub const TUPLE_CLOSE: u8 = 41;

/// Length of the single complete signature at the front of `s`, or `None`
/// if `s` does not begin with a complete signature.
pub open spec fn one_sig_len(s: Seq<u8>) -> Option<int>
    decreases s.len(), 0int,
{
    if s.len() == 0 {
        None
    } else if s[0] == BOOL_TAG || s[0] == INT32_TAG {
        Some(1int)
    } else if s[0] == MAYBE_TAG || s[0] == ARRAY_TAG {
        match one_sig_len(s.skip(1)) {
            Some(n) => Some(1 + n),
            None => None,
        }
    } else if s[0] == TUPLE_OPEN {
        match sig_list_len(s.skip(1)) {
            Some(n) => Some(2 + n),
            None => None,
        }
    } else {
        None
    }
}

/// Length of the run of complete signatures at the front of `s` that ends
/// exactly at a closing tuple tag, or `None` if there is no such run.
pub open spec fn sig_list_len(s: Seq<u8>) -> Option<int>
    decreases s.len(), 1int,
{
    if s.len() == 0 {
        None
    } else if s[0] == TUPLE_CLOSE {
        Some(0int)
    } else {
        match one_sig_len(s) {
            Some(n) => if 1 <= n && n < s.len() {
                match sig_list_len(s.skip(n)) {
                    Some(m) => Some(n + m),
                    None => None,
                }
            } else {
                None
            },
            None => None,
        }
    }
}

/// `s` is exactly one complete signature.
pub open spec fn valid_sig(s: Seq<u8>) -> bool {
    one_sig_len(s) == Some(s.len() as int)
}

/// The component signatures of the run of signatures at the front of `s`
/// (the region a [`sig_list_len`] measures), in order.
pub open spec fn sig_list_comps(s: Seq<u8>) -> Seq<Seq<u8>>
    decreases s.len(),
{
    if s.len() == 0 || s[0] == TUPLE_CLOSE {
        Seq::empty()
    } else {
        match one_sig_len(s) {
            Some(n) => if 1 <= n && n < s.len() {
                seq![s.take(n)] + sig_list_comps(s.skip(n))
            } else {
                Seq::empty()
            },
            None => Seq::empty(),
        }
    }
}

/// Concatenation of a sequence of byte strings.
pub open spec fn concat_all(parts: Seq<Seq<u8>>) -> Seq<u8>
    decreases parts.len(),
{
    if parts.len() == 0 {
        Seq::empty()
    } else {
        parts[0] + concat_all(parts.skip(1))
    }
}

/// The byte strings of a sequence of signatures, element by element.
pub open spec fn sig_views(parts: Seq<Signature>) -> Seq<Seq<u8>> {
    Seq::new(parts.len(), |i: int| parts[i]@)
}

/// `s` begins with one of the three container tags.
pub open spec fn is_container_tag(s: Seq<u8>) -> bool {
    s.len() > 0 && (s[0] == MAYBE_TAG || s[0] == ARRAY_TAG || s[0] == TUPLE_OPEN)
}

/// A complete signature is non-empty and at least one byte long.
pub proof fn lemma_one_len_bounds(s: Seq<u8>)
    ensures
        one_sig_len(s) matches Some(n) ==> 1 <= n <= s.len(),
    decreases s.len(), 0int,
{
    if s.len() == 0 {
    } else if s[0] == BOOL_TAG || s[0] == INT32_TAG {
    } else if s[0] == MAYBE_TAG || s[0] == ARRAY_TAG {
        lemma_one_len_bounds(s.skip(1));
    } else if s[0] == TUPLE_OPEN {
        lemma_list_len_bounds(s.skip(1));
    }
}

/// A measured run of signatures stops just before a closing tuple tag.
pub proof fn lemma_list_len_bounds(s: Seq<u8>)
    ensures
        sig_list_len(s) matches Some(m) ==> 0 <= m < s.len() && s[m] == TUPLE_CLOSE,
    decreases s.len(), 1int,
{
    if s.len() == 0 {
    } else if s[0] == TUPLE_CLOSE {
    } else {
        lemma_one_len_bounds(s);
        match one_sig_len(s) {
            Some(n) => {
                if 1 <= n && n < s.len() {
                    lemma_list_len_bounds(s.skip(n));
                }
            },
            None => {},
        }
    }
}

/// Parsing one signature reads only the bytes it measures: any byte string
/// that agrees on those bytes parses to the same length.
pub proof fn lemma_one_len_prefix(s: Seq<u8>, t: Seq<u8>, n: int)
    requires
        one_sig_len(s) == Some(n),
        n <= t.len(),
        t.take(n) == s.take(n),
    ensures
        one_sig_len(t) == Some(n),
    decreases s.len(), 0int,
{
    lemma_one_len_bounds(s);
    assert(t[0] == t.take(n)[0]);
    assert(s[0] == s.take(n)[0]);
    if s[0] == BOOL_TAG || s[0] == INT32_TAG {
    } else if s[0] == MAYBE_TAG || s[0] == ARRAY_TAG {
        assert(t.skip(1).take(n - 1) =~= s.skip(1).take(n - 1)) by {
            assert forall|k: int| 0 <= k < n - 1 implies #[trigger] t.skip(1).take(n - 1)[k]
                == s.skip(1).take(n - 1)[k] by {
                assert(t.skip(1).take(n - 1)[k] == t.take(n)[k + 1]);
                assert(s.skip(1).take(n - 1)[k] == s.take(n)[k + 1]);
            }
        }
        lemma_one_len_prefix(s.skip(1), t.skip(1), n - 1);
    } else if s[0] == TUPLE_OPEN {
        lemma_list_len_bounds(s.skip(1));
        assert(t.skip(1).take(n - 1) =~= s.skip(1).take(n - 1)) by {
            assert forall|k: int| 0 <= k < n - 1 implies #[trigger] t.skip(1).take(n - 1)[k]
                == s.skip(1).take(n - 1)[k] by {
                assert(t.skip(1).take(n - 1)[k] == t.take(n)[k + 1]);
                assert(s.skip(1).take(n - 1)[k] == s.take(n)[k + 1]);
            }
        }
        lemma_list_len_prefix(s.skip(1), t.skip(1), n - 2);
    }
}

/// Measuring a run of signatures reads only the measured bytes and the
/// closing tag after them.
pub proof fn lemma_list_len_prefix(s: Seq<u8>, t: Seq<u8>, m: int)
    requires
        sig_list_len(s) == Some(m),
        m + 1 <= t.len(),
        t.take(m + 1) == s.take(m + 1),
    ensures
        sig_list_len(t) == Some(m),
    decreases s.len(), 1int,
{
    lemma_list_len_bounds(s);
    assert(t[0] == t.take(m + 1)[0]);
    assert(s[0] == s.take(m + 1)[0]);
    if s[0] == TUPLE_CLOSE {
    } else {
        let k = one_sig_len(s)->Some_0;
        lemma_one_len_bounds(s);
        lemma_list_len_bounds(s.skip(k));
        assert(t.take(k) =~= s.take(k)) by {
            assert forall|j: int| 0 <= j < k implies #[trigger] t.take(k)[j] == s.take(k)[j] by {
                assert(t.take(k)[j] == t.take(m + 1)[j]);
                assert(s.take(k)[j] == s.take(m + 1)[j]);
            }
        }
        lemma_one_len_prefix(s, t, k);
        assert(t.skip(k).take(m - k + 1) =~= s.skip(k).take(m - k + 1)) by {
            assert forall|j: int| 0 <= j < m - k + 1 implies #[trigger] t.skip(k).take(m - k + 1)[j]
                == s.skip(k).take(m - k + 1)[j] by {
                assert(t.skip(k).take(m - k + 1)[j] == t.take(m + 1)[j + k]);
                assert(s.skip(k).take(m - k + 1)[j] == s.take(m + 1)[j + k]);
            }
        }
        lemma_list_len_prefix(s.skip(k), t.skip(k), m - k);
    }
}

/// The measured front of a byte string is itself a complete signature.
pub proof fn lemma_prefix_valid(s: Seq<u8>, n: int)
    requires
        one_sig_len(s) == Some(n),
    ensures
        valid_sig(s.take(n)),
{
    lemma_one_len_bounds(s);
    assert(s.take(n).take(n) =~= s.take(n));
    lemma_one_len_prefix(s, s.take(n), n);
}

/// Prefixing a complete signature with a maybe or array tag yields a
/// complete signature.
pub proof fn lemma_wrap_valid(c: u8, s: Seq<u8>)
    requires
        valid_sig(s),
        c == MAYBE_TAG || c == ARRAY_TAG,
    ensures
        valid_sig(seq![c] + s),
{
    let w = seq![c] + s;
    assert(w[0] == c);
    assert(w.skip(1) =~= s);
}

/// Stripping the maybe or array tag from a complete signature leaves a
/// complete signature.
pub proof fn lemma_unwrap_valid(s: Seq<u8>)
    requires
        valid_sig(s),
        s.len() > 0,
        s[0] == MAYBE_TAG || s[0] == ARRAY_TAG,
    ensures
        valid_sig(s.skip(1)),
{
}

/// A complete signature is non-empty and begins with one of the five tags.
pub proof fn lemma_valid_first(s: Seq<u8>)
    requires
        valid_sig(s),
    ensures
        s.len() >= 1,
        s[0] == BOOL_TAG || s[0] == INT32_TAG || s[0] == MAYBE_TAG || s[0] == ARRAY_TAG || s[0]
            == TUPLE_OPEN,
{
    lemma_one_len_bounds(s);
}

/// The one-byte base signatures are complete signatures.
pub proof fn lemma_base_sigs()
    ensures
        valid_sig(seq![BOOL_TAG]),
        valid_sig(seq![INT32_TAG]),
{
    assert(seq![BOOL_TAG][0] == BOOL_TAG);
    assert(seq![INT32_TAG][0] == INT32_TAG);
    assert(seq![BOOL_TAG].len() == 1);
    assert(seq![INT32_TAG].len() == 1);
}

/// The components of a measured run are each complete signatures, and their
/// concatenation is exactly the measured region.
pub proof fn lemma_list_comps(s: Seq<u8>, m: int)
    requires
        sig_list_len(s) == Some(m),
    ensures
        concat_all(sig_list_comps(s)) == s.take(m),
        forall|j: int|
            0 <= j < sig_list_comps(s).len() ==> valid_sig(#[trigger] sig_list_comps(s)[j]),
    decreases s.len(),
{
    lemma_list_len_bounds(s);
    if s[0] == TUPLE_CLOSE {
        assert(concat_all(sig_list_comps(s)) =~= s.take(0));
    } else {
        let k = one_sig_len(s)->Some_0;
        lemma_one_len_bounds(s);
        lemma_list_len_bounds(s.skip(k));
        lemma_list_comps(s.skip(k), m - k);
        lemma_prefix_valid(s, k);
        let comps = sig_list_comps(s);
        let rest = sig_list_comps(s.skip(k));
        assert(comps == seq![s.take(k)] + rest);
        assert(comps[0] == s.take(k));
        assert(comps.skip(1) =~= rest);
        assert(concat_all(comps) == s.take(k) + concat_all(rest));
        assert(s.take(k) + s.skip(k).take(m - k) =~= s.take(m)) by {
            assert forall|j: int| 0 <= j < m implies #[trigger] (s.take(k) + s.skip(k).take(m - k))[j]
                == s.take(m)[j] by {
                if j < k {
                    assert((s.take(k) + s.skip(k).take(m - k))[j] == s.take(k)[j]);
                } else {
                    assert((s.take(k) + s.skip(k).take(m - k))[j] == s.skip(k).take(m - k)[j - k]);
                }
            }
        }
        assert forall|j: int| 0 <= j < comps.len() implies valid_sig(#[trigger] comps[j]) by {
            if j > 0 {
                assert(comps[j] == rest[j - 1]);
            }
        }
    }
}

/// A complete tuple signature decomposes into its component signatures
/// between the opening and closing tags.
pub proof fn lemma_tuple_decompose(t: Seq<u8>)
    requires
        valid_sig(t),
        t.len() > 0,
        t[0] == TUPLE_OPEN,
    ensures
        sig_list_len(t.skip(1)) == Some(t.len() - 2),
        t == seq![TUPLE_OPEN] + concat_all(sig_list_comps(t.skip(1))) + seq![TUPLE_CLOSE],
        forall|j: int|
            0 <= j < sig_list_comps(t.skip(1)).len() ==> valid_sig(
                #[trigger] sig_list_comps(t.skip(1))[j],
            ),
{
    let inner = t.skip(1);
    assert(sig_list_len(inner) == Some(t.len() - 2));
    lemma_list_len_bounds(inner);
    lemma_list_comps(inner, t.len() - 2);
    assert(inner[t.len() - 2] == TUPLE_CLOSE);
    assert(t == seq![TUPLE_OPEN] + concat_all(sig_list_comps(inner)) + seq![TUPLE_CLOSE]) by {
        assert(concat_all(sig_list_comps(inner)) == inner.take(t.len() - 2));
        assert(t =~= seq![TUPLE_OPEN] + inner.take(t.len() - 2) + seq![TUPLE_CLOSE]);
    }
}

/// Appending one more byte string extends the concatenation at the end.
pub proof fn lemma_concat_all_push(parts: Seq<Seq<u8>>, x: Seq<u8>)
    ensures
        concat_all(parts.push(x)) == concat_all(parts) + x,
    decreases parts.len(),
{
    if parts.len() == 0 {
        assert(parts.push(x).skip(1) =~= Seq::<Seq<u8>>::empty());
        assert(parts.push(x)[0] == x);
        assert(parts.push(x).len() == 1);
        assert(concat_all(parts.push(x)) == x + concat_all(Seq::<Seq<u8>>::empty()));
        assert(x + Seq::<u8>::empty() =~= x);
        assert(Seq::<u8>::empty() + x =~= x);
        assert(concat_all(parts.push(x)) =~= concat_all(parts) + x);
    } else {
        assert(parts.push(x).skip(1) =~= parts.skip(1).push(x));
        lemma_concat_all_push(parts.skip(1), x);
        assert(parts.push(x)[0] == parts[0]);
        assert(parts[0] + (concat_all(parts.skip(1)) + x) =~= (parts[0] + concat_all(
            parts.skip(1),
        )) + x);
    }
}

/// A run of complete signatures followed by a closing tuple tag measures
/// as a run: the converse of the decomposition of a tuple signature.
pub proof fn lemma_list_build(parts: Seq<Seq<u8>>)
    requires
        forall|j: int| 0 <= j < parts.len() ==> valid_sig(#[trigger] parts[j]),
    ensures
        sig_list_len(concat_all(parts) + seq![TUPLE_CLOSE]) == Some(concat_all(parts).len() as int),
    decreases parts.len(),
{
    let s = concat_all(parts) + seq![TUPLE_CLOSE];
    if parts.len() == 0 {
        assert(s[0] == TUPLE_CLOSE);
    } else {
        let head = parts[0];
        let rest = concat_all(parts.skip(1));
        lemma_valid_first(head);
        assert(s.take(head.len() as int) =~= head.take(head.len() as int)) by {
            assert forall|j: int| 0 <= j < head.len() implies s.take(head.len() as int)[j]
                == head.take(head.len() as int)[j] by {
                assert(s[j] == concat_all(parts)[j]);
                assert(concat_all(parts)[j] == head[j]);
            }
        }
        lemma_one_len_prefix(head, s, head.len() as int);
        lemma_list_build(parts.skip(1));
        assert(s.skip(head.len() as int) =~= rest + seq![TUPLE_CLOSE]) by {
            assert forall|j: int| 0 <= j < s.len() - head.len() implies s.skip(
                head.len() as int,
            )[j] == (rest + seq![TUPLE_CLOSE])[j] by {
                if j < rest.len() {
                    assert(s[head.len() + j] == concat_all(parts)[head.len() + j]);
                    assert(concat_all(parts)[head.len() + j] == rest[j]);
                }
            }
        }
        assert(s[0] == head[0]);
    }
}

/// The error of signature construction: the bytes are not a single
/// complete signature.
#[derive(Clone, Copy, Debug, PartialEq, Eq, Structural)]
pub enum SignatureError {
    Malformed,
}

/// An immutable, structurally valid type signature.
#[derive(Debug)]
pub struct Signature {
    bytes: Vec<u8>,
}

impl View for Signature {
    type V = Seq<u8>;

    closed spec fn view(&self) -> Seq<u8> {
        self.bytes@
    }
}

impl Signature {
    /// Every signature value holds a complete signature.
    #[verifier::type_invariant]
    pub open spec fn type_inv(self) -> bool {
        valid_sig(self@)
    }

    /// Checks whether `bytes` is a single complete signature.
    pub fn validate(bytes: &Vec<u8>) -> (ok: bool)
        ensures
            ok == valid_sig(bytes@),
    {
        proof {
            assert(bytes@.skip(0) =~= bytes@);
        }
        match parse_one(bytes, 0) {
            Some(n) => n == bytes.len(),
            None => false,
        }
    }

    /// Builds a signature from its byte string, rejecting byte strings that
    /// are not a single complete signature.
    pub fn new(bytes: Vec<u8>) -> (r: Result<Signature, SignatureError>)
        ensures
            valid_sig(bytes@) ==> (r matches Ok(s) && s@ == bytes@),
            !valid_sig(bytes@) ==> r == Err::<Signature, SignatureError>(SignatureError::Malformed),
    {
        if Signature::validate(&bytes) {
            Ok(Signature { bytes })
        } else {
            Err(SignatureError::Malformed)
        }
    }

    /// The boolean signature `b`.
    pub fn boolean() -> (s: Signature)
        ensures
            s@ == seq![BOOL_TAG],
    {
        proof {
            lemma_base_sigs();
        }
        let mut bytes: Vec<u8> = Vec::new();
        bytes.push(BOOL_TAG);
        proof {
            assert(bytes@ =~= seq![BOOL_TAG]);
        }
        Signature { bytes }
    }

    /// The 32-bit integer signature `i`.
    pub fn int32() -> (s: Signature)
        ensures
            s@ == seq![INT32_TAG],
    {
        proof {
            lemma_base_sigs();
        }
        let mut bytes: Vec<u8> = Vec::new();
        bytes.push(INT32_TAG);
        proof {
            assert(bytes@ =~= seq![INT32_TAG]);
        }
        Signature { bytes }
    }

    /// The signature of the maybe wrapping of `self`: the maybe tag
    /// immediately followed by `self`, with nothing in between.
    pub fn maybe_of(&self) -> (r: Signature)
        ensures
            r@ == seq![MAYBE_TAG] + self@,
    {
        self.prefixed(MAYBE_TAG)
    }

    /// The signature of an array of `self`.
    pub fn array_of(&self) -> (r: Signature)
        ensures
            r@ == seq![ARRAY_TAG] + self@,
    {
        self.prefixed(ARRAY_TAG)
    }

    /// The tuple signature whose components are `parts`, in order,
    /// between one opening and one closing tag.
    pub fn tuple_of(parts: &Vec<Signature>) -> (r: Signature)
        ensures
            r@ == seq![TUPLE_OPEN] + concat_all(sig_views(parts@)) + seq![TUPLE_CLOSE],
    {
        let ghost views = sig_views(parts@);
        let mut bytes: Vec<u8> = Vec::new();
        bytes.push(TUPLE_OPEN);
        proof {
            assert(views.take(0) =~= Seq::<Seq<u8>>::empty());
            assert(bytes@ =~= seq![TUPLE_OPEN] + concat_all(views.take(0)));
        }
        let n: usize = parts.len();
        let mut i: usize = 0;
        while i < n
            invariant
                n == parts.len(),
                i <= n,
                views == sig_views(parts@),
                bytes@ == seq![TUPLE_OPEN] + concat_all(views.take(i as int)),
                forall|k: int| 0 <= k < i ==> valid_sig(#[trigger] views[k]),
            decreases n - i,
        {
            let p = &parts[i];
            proof {
                use_type_invariant(p);
            }
            let pb = p.as_bytes();
            let m: usize = pb.len();
            let mut j: usize = 0;
            while j < m
                invariant
                    m == pb.len(),
                    j <= m,
                    i < n == parts.len(),
                    views == sig_views(parts@),
                    pb@ == views[i as int],
                    bytes@ == seq![TUPLE_OPEN] + concat_all(views.take(i as int)) + pb@.take(
                        j as int,
                    ),
                decreases m - j,
            {
                bytes.push(pb[j]);
                proof {
                    assert(bytes@ =~= seq![TUPLE_OPEN] + concat_all(views.take(i as int))
                        + pb@.take(j + 1));
                }
                j += 1;
            }
            proof {
                lemma_concat_all_push(views.take(i as int), views[i as int]);
                assert(views.take(i + 1) =~= views.take(i as int).push(views[i as int]));
                assert(pb@.take(m as int) =~= pb@);
                assert(bytes@ =~= seq![TUPLE_OPEN] + concat_all(views.take(i + 1)));
            }
            i += 1;
        }
        bytes.push(TUPLE_CLOSE);
        proof {
            assert(views.take(n as int) =~= views);
            assert(bytes@ =~= seq![TUPLE_OPEN] + concat_all(views) + seq![TUPLE_CLOSE]);
            lemma_list_build(views);
            let s = bytes@;
            assert(s[0] == TUPLE_OPEN);
            assert(s.skip(1) =~= concat_all(views) + seq![TUPLE_CLOSE]);
            assert(valid_sig(s));
        }
        Signature { bytes }
    }

    fn prefixed(&self, c: u8) -> (r: Signature)
        requires
            c == MAYBE_TAG || c == ARRAY_TAG,
        ensures
            r@ == seq![c] + self@,
    {
        proof {
            use_type_invariant(self);
            lemma_wrap_valid(c, self@);
        }
        let mut bytes: Vec<u8> = Vec::new();
        bytes.push(c);
        let n = self.bytes.len();
        let mut i: usize = 0;
        while i < n
            invariant
                n == self.bytes.len(),
                i <= n,
                bytes@ == seq![c] + self.bytes@.take(i as int),
            decreases n - i,
        {
            bytes.push(self.bytes[i]);
            proof {
                assert(bytes@ =~= seq![c] + self.bytes@.take(i + 1));
            }
            i += 1;
        }
        proof {
            assert(self.bytes@.take(n as int) =~= self.bytes@);
        }
        Signature { bytes }
    }

    /// The signature under a leading maybe or array tag.
    pub fn inner(&self) -> (r: Signature)
        requires
            self@.len() > 0,
            self@[0] == MAYBE_TAG || self@[0] == ARRAY_TAG,
        ensures
            r@ == self@.skip(1),
    {
        proof {
            use_type_invariant(self);
            lemma_unwrap_valid(self@);
        }
        let n = self.bytes.len();
        let mut bytes: Vec<u8> = Vec::new();
        let mut i: usize = 1;
        while i < n
            invariant
                n == self.bytes.len(),
                1 <= i <= n,
                bytes@ == self.bytes@.subrange(1, i as int),
            decreases n - i,
        {
            bytes.push(self.bytes[i]);
            proof {
                assert(bytes@ =~= self.bytes@.subrange(1, i + 1));
            }
            i += 1;
        }
        proof {
            assert(bytes@ =~= self@.skip(1));
        }
        Signature { bytes }
    }

    /// An owned copy of the same signature.
    pub fn duplicate(&self) -> (r: Signature)
        ensures
            r@ == self@,
    {
        proof {
            use_type_invariant(self);
        }
        let n = self.bytes.len();
        let mut bytes: Vec<u8> = Vec::new();
        let mut i: usize = 0;
        while i < n
            invariant
                n == self.bytes.len(),
                i <= n,
                bytes@ == self.bytes@.take(i as int),
            decreases n - i,
        {
            bytes.push(self.bytes[i]);
            proof {
                assert(bytes@ =~= self.bytes@.take(i + 1));
            }
            i += 1;
        }
        proof {
            assert(bytes@ =~= self@);
        }
        Signature { bytes }
    }

    /// Byte-for-byte equality of two signatures.
    pub fn equals(&self, other: &Signature) -> (r: bool)
        ensures
            r == (self@ == other@),
    {
        let n = self.bytes.len();
        if n != other.bytes.len() {
            return false;
        }
        let mut i: usize = 0;
        while i < n
            invariant
                n == self.bytes.len(),
                n == other.bytes.len(),
                i <= n,
                forall|j: int| 0 <= j < i ==> self.bytes@[j] == other.bytes@[j],
            decreases n - i,
        {
            if self.bytes[i] != other.bytes[i] {
                return false;
            }
            i += 1;
        }
        proof {
            assert(self@ =~= other@);
        }
        true
    }

    /// The first tag byte of the signature.
    pub fn first(&self) -> (c: u8)
        ensures
            self@.len() > 0 && c == self@[0],
    {
        proof {
            use_type_invariant(self);
            lemma_valid_first(self@);
        }
        self.bytes[0]
    }

    /// Whether the signature describes a container (maybe, array or tuple).
    pub fn is_container(&self) -> (r: bool)
        ensures
            r == is_container_tag(self@),
    {
        let c = self.first();
        c == MAYBE_TAG || c == ARRAY_TAG || c == TUPLE_OPEN
    }

    /// The signature's byte string.
    pub fn as_bytes(&self) -> (r: &Vec<u8>)
        ensures
            r@ == self@,
    {
        &self.bytes
    }
}

fn parse_one(bytes: &Vec<u8>, i: usize) -> (r: Option<usize>)
    requires
        i <= bytes.len(),
    ensures
        match r {
            Some(n) => one_sig_len(bytes@.skip(i as int)) == Some(n as int) && i + n <= bytes.len(),
            None => one_sig_len(bytes@.skip(i as int)) is None,
        },
    decreases bytes.len() - i, 0int,
{
    let ghost s = bytes@.skip(i as int);
    if i == bytes.len() {
        return None;
    }
    let c = bytes[i];
    proof {
        assert(s[0] == bytes@[i as int]);
    }
    if c == BOOL_TAG || c == INT32_TAG {
        Some(1)
    } else if c == MAYBE_TAG || c == ARRAY_TAG {
        proof {
            assert(s.skip(1) =~= bytes@.skip(i + 1));
        }
        match parse_one(bytes, i + 1) {
            Some(n) => Some(n + 1),
            None => None,
        }
    } else if c == TUPLE_OPEN {
        proof {
            assert(s.skip(1) =~= bytes@.skip(i + 1));
        }
        match parse_list(bytes, i + 1) {
            Some(n) => Some(n + 2),
            None => None,
        }
    } else {
        None
    }
}

fn parse_list(bytes: &Vec<u8>, i: usize) -> (r: Option<usize>)
    requires
        i <= bytes.len(),
    ensures
        match r {
            Some(n) => sig_list_len(bytes@.skip(i as int)) == Some(n as int) && i + n < bytes.len(),
            None => sig_list_len(bytes@.skip(i as int)) is None,
        },
    decreases bytes.len() - i, 1int,
{
    let ghost s = bytes@.skip(i as int);
    if i == bytes.len() {
        return None;
    }
    let c = bytes[i];
    proof {
        assert(s[0] == bytes@[i as int]);
    }
    if c == TUPLE_CLOSE {
        return Some(0);
    }
    match parse_one(bytes, i) {
        Some(n) => {
            proof {
                lemma_one_len_bounds(s);
            }
            if n < bytes.len() - i {
                proof {
                    assert(s.skip(n as int) =~= bytes@.skip(i + n));
                }
                match parse_list(bytes, i + n) {
                    Some(m) => Some(n + m),
                    None => None,
                }
            } else {
                None
            }
        },
        None => None,
    }
}

} // verus!
