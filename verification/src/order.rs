//! The orders on the keys of the relay's collections.
//!
//! Every collection of the relay keeps its entries in ascending key order, so
//! that a listing is determined by what the collection holds. Byte strings are
//! ordered lexicographically; chain names and hashes by their UTF-8 bytes.

use vstd::prelude::*;
use vstd::utf8::encode_utf8;
use vstd::utf8::encode_utf8_decode_utf8;

verus! {

/// Outcome of comparing two keys.
#[derive(Clone, Copy, Debug, PartialEq, Eq, Structural)]
pub enum Rank {
    Before,
    Same,
    After,
}

/// Lexicographic order on byte strings: a proper prefix comes first, and
/// otherwise the first differing byte decides.
pub open spec fn bytes_precede(a: Seq<u8>, b: Seq<u8>) -> bool
    decreases a.len(),
{
    if b.len() == 0 {
        false
    } else if a.len() == 0 {
        true
    } else if a[0] != b[0] {
        a[0] < b[0]
    } else {
        bytes_precede(a.drop_first(), b.drop_first())
    }
}

/// No byte string precedes itself.
pub proof fn lemma_bytes_irreflexive(a: Seq<u8>)
    ensures
        !bytes_precede(a, a),
    decreases a.len(),
{
    if a.len() > 0 {
        lemma_bytes_irreflexive(a.drop_first());
    }
}

/// The lexicographic order is transitive.
pub proof fn lemma_bytes_transitive(a: Seq<u8>, b: Seq<u8>, c: Seq<u8>)
    requires
        bytes_precede(a, b),
        bytes_precede(b, c),
    ensures
        bytes_precede(a, c),
    decreases a.len(),
{
    if a.len() > 0 && a[0] == b[0] && b[0] == c[0] {
        lemma_bytes_transitive(a.drop_first(), b.drop_first(), c.drop_first());
    }
}

/// Dropping a common prefix changes neither the order nor equality.
proof fn lemma_skip_common_prefix(a: Seq<u8>, b: Seq<u8>, n: int)
    requires
        0 <= n <= a.len(),
        n <= b.len(),
        forall|j: int| 0 <= j < n ==> a[j] == b[j],
    ensures
        bytes_precede(a, b) == bytes_precede(a.skip(n), b.skip(n)),
        bytes_precede(b, a) == bytes_precede(b.skip(n), a.skip(n)),
        (a == b) == (a.skip(n) == b.skip(n)),
    decreases n,
{
    if n == 0 {
        assert(a.skip(0) =~= a);
        assert(b.skip(0) =~= b);
    } else {
        lemma_skip_common_prefix(a, b, n - 1);
        let x = a.skip(n - 1);
        let y = b.skip(n - 1);
        assert(x[0] == y[0]);
        assert(x.drop_first() =~= a.skip(n));
        assert(y.drop_first() =~= b.skip(n));
        if a.skip(n) == b.skip(n) {
            assert(x =~= seq![x[0]] + x.drop_first());
            assert(y =~= seq![y[0]] + y.drop_first());
        }
    }
}

/// Ranks two byte strings lexicographically.
pub fn rank_bytes(a: &[u8], b: &[u8]) -> (r: Rank)
    ensures
        r == Rank::Before <==> bytes_precede(a@, b@),
        r == Rank::Same <==> a@ == b@,
        r == Rank::After <==> bytes_precede(b@, a@),
{
    let mut i: usize = 0;
    while i < a.len() && i < b.len()
        invariant
            i <= a.len(),
            i <= b.len(),
            forall|j: int| 0 <= j < i ==> a@[j] == b@[j],
        decreases a.len() - i,
    {
        if a[i] != b[i] {
            proof {
                lemma_skip_common_prefix(a@, b@, i as int);
                let x = a@.skip(i as int);
                let y = b@.skip(i as int);
                assert(x[0] == a@[i as int] && y[0] == b@[i as int]);
                lemma_bytes_irreflexive(x);
                if x[0] < y[0] {
                    assert(bytes_precede(x, y) && !bytes_precede(y, x));
                } else {
                    assert(bytes_precede(y, x) && !bytes_precede(x, y));
                }
            }
            if a[i] < b[i] {
                return Rank::Before;
            } else {
                return Rank::After;
            }
        }
        i += 1;
    }
    proof {
        lemma_skip_common_prefix(a@, b@, i as int);
        let x = a@.skip(i as int);
        let y = b@.skip(i as int);
        if x.len() == 0 && y.len() == 0 {
            assert(x =~= y);
        }
    }
    if i < b.len() {
        Rank::Before
    } else if i < a.len() {
        Rank::After
    } else {
        Rank::Same
    }
}

/// A key of an ordered collection: a value with a mathematical view, a strict
/// order on the views, and a comparison that computes it and so shows that
/// any two keys are the same or ordered one way or the other.
pub trait Key: View + Sized {
    /// The strict order in which a collection keeps its keys.
    spec fn precedes(a: Self::V, b: Self::V) -> bool;

    /// No key precedes itself.
    proof fn lemma_irreflexive(a: Self::V)
        ensures
            !Self::precedes(a, a),
    ;

    /// The order is transitive.
    proof fn lemma_transitive(a: Self::V, b: Self::V, c: Self::V)
        requires
            Self::precedes(a, b),
            Self::precedes(b, c),
        ensures
            Self::precedes(a, c),
    ;

    /// Ranks this key against another.
    fn rank(&self, other: &Self) -> (r: Rank)
        ensures
            r == Rank::Before <==> Self::precedes(self@, other@),
            r == Rank::Same <==> self@ == other@,
            r == Rank::After <==> Self::precedes(other@, self@),
    ;

    /// A copy of this key.
    fn duplicate(&self) -> (copy: Self)
        ensures
            copy@ == self@,
    ;
}

/// Order on text: the lexicographic order of the UTF-8 encodings.
pub open spec fn text_precedes(a: Seq<char>, b: Seq<char>) -> bool {
    bytes_precede(encode_utf8(a), encode_utf8(b))
}

/// Two texts with the same UTF-8 encoding are the same text.
pub proof fn lemma_utf8_injective(a: Seq<char>, b: Seq<char>)
    requires
        encode_utf8(a) == encode_utf8(b),
    ensures
        a == b,
{
    encode_utf8_decode_utf8(a);
    encode_utf8_decode_utf8(b);
}

impl Key for String {
    open spec fn precedes(a: Seq<char>, b: Seq<char>) -> bool {
        text_precedes(a, b)
    }

    proof fn lemma_irreflexive(a: Seq<char>) {
        lemma_bytes_irreflexive(encode_utf8(a));
    }

    proof fn lemma_transitive(a: Seq<char>, b: Seq<char>, c: Seq<char>) {
        lemma_bytes_transitive(encode_utf8(a), encode_utf8(b), encode_utf8(c));
    }

    fn rank(&self, other: &Self) -> (r: Rank) {
        let r = rank_bytes(self.as_str().as_bytes(), other.as_str().as_bytes());
        proof {
            if encode_utf8(self@) == encode_utf8(other@) {
                lemma_utf8_injective(self@, other@);
            }
        }
        r
    }

    fn duplicate(&self) -> (copy: Self) {
        self.clone()
    }
}

} // verus!
