//! Total orders used for the canonical ordering of transaction templates.
//!
//! Every participant must derive byte-identical templates from the same
//! commitment set, so inputs and outputs are sorted under total orders
//! built from the lexicographic order on byte strings.

use vstd::prelude::*;
use vstd::relations::total_ordering;

verus! {

/// Lexicographic `<=` on byte sequences: a proper prefix comes first,
/// otherwise the first differing byte decides.
pub open spec fn bytes_le(a: Seq<u8>, b: Seq<u8>) -> bool
    decreases a.len(),
{
    if a.len() == 0 {
        true
    } else if b.len() == 0 {
        false
    } else if a.first() < b.first() {
        true
    } else if a.first() > b.first() {
        false
    } else {
        bytes_le(a.drop_first(), b.drop_first())
    }
}

pub proof fn lemma_bytes_le_reflexive(a: Seq<u8>)
    ensures
        bytes_le(a, a),
    decreases a.len(),
{
    if a.len() > 0 {
        lemma_bytes_le_reflexive(a.drop_first());
    }
}

pub proof fn lemma_bytes_le_connected(a: Seq<u8>, b: Seq<u8>)
    ensures
        bytes_le(a, b) || bytes_le(b, a),
    decreases a.len(),
{
    if a.len() > 0 && b.len() > 0 && a.first() == b.first() {
        lemma_bytes_le_connected(a.drop_first(), b.drop_first());
    }
}

pub proof fn lemma_bytes_le_antisymmetric(a: Seq<u8>, b: Seq<u8>)
    requires
        bytes_le(a, b),
        bytes_le(b, a),
    ensures
        a == b,
    decreases a.len(),
{
    if a.len() == 0 {
        assert(a =~= b);
    } else {
        lemma_bytes_le_antisymmetric(a.drop_first(), b.drop_first());
        assert forall|i: int| 0 <= i < a.len() implies a[i] == b[i] by {
            if i > 0 {
                assert(a[i] == a.drop_first()[i - 1]);
                assert(b[i] == b.drop_first()[i - 1]);
            }
        }
        assert(a =~= b);
    }
}

pub proof fn lemma_bytes_le_transitive(a: Seq<u8>, b: Seq<u8>, c: Seq<u8>)
    requires
        bytes_le(a, b),
        bytes_le(b, c),
    ensures
        bytes_le(a, c),
    decreases a.len(),
{
    if a.len() > 0 && c.len() > 0 && a.first() == c.first() {
        if a.first() == b.first() && b.first() == c.first() {
            lemma_bytes_le_transitive(a.drop_first(), b.drop_first(), c.drop_first());
        }
    }
}

/// The lexicographic byte order as a first-class relation.
pub open spec fn bytes_ord() -> spec_fn(Seq<u8>, Seq<u8>) -> bool {
    |a: Seq<u8>, b: Seq<u8>| bytes_le(a, b)
}

pub proof fn lemma_bytes_ord_total()
    ensures
        total_ordering(bytes_ord()),
{
    let r = bytes_ord();
    assert forall|a: Seq<u8>| #[trigger] r(a, a) by {
        lemma_bytes_le_reflexive(a);
    }
    assert forall|a: Seq<u8>, b: Seq<u8>| #[trigger] r(a, b) && #[trigger] r(b, a) implies a == b by {
        lemma_bytes_le_antisymmetric(a, b);
    }
    assert forall|a: Seq<u8>, b: Seq<u8>, c: Seq<u8>|
        #[trigger] r(a, b) && #[trigger] r(b, c) implies r(a, c) by {
        lemma_bytes_le_transitive(a, b, c);
    }
    assert forall|a: Seq<u8>, b: Seq<u8>| #[trigger] r(a, b) || #[trigger] r(b, a) by {
        lemma_bytes_le_connected(a, b);
    }
}

/// `<=` on `u32` as a first-class relation.
pub open spec fn u32_ord() -> spec_fn(u32, u32) -> bool {
    |a: u32, b: u32| a <= b
}

pub proof fn lemma_u32_ord_total()
    ensures
        total_ordering(u32_ord()),
{
}

/// `<=` on `u64` as a first-class relation.
pub open spec fn u64_ord() -> spec_fn(u64, u64) -> bool {
    |a: u64, b: u64| a <= b
}

pub proof fn lemma_u64_ord_total()
    ensures
        total_ordering(u64_ord()),
{
}

/// Lexicographic composition of two orders: the first component decides,
/// the second breaks ties.
pub open spec fn lex_pair<A, B>(
    le_a: spec_fn(A, A) -> bool,
    le_b: spec_fn(B, B) -> bool,
) -> spec_fn((A, B), (A, B)) -> bool {
    |x: (A, B), y: (A, B)|
        if x.0 == y.0 {
            le_b(x.1, y.1)
        } else {
            le_a(x.0, y.0)
        }
}

pub proof fn lemma_lex_pair_total<A, B>(le_a: spec_fn(A, A) -> bool, le_b: spec_fn(B, B) -> bool)
    requires
        total_ordering(le_a),
        total_ordering(le_b),
    ensures
        total_ordering(lex_pair(le_a, le_b)),
{
    let r = lex_pair(le_a, le_b);
    assert forall|x: (A, B)| #[trigger] r(x, x) by {
        assert(le_b(x.1, x.1));
    }
    assert forall|x: (A, B), y: (A, B)| #[trigger] r(x, y) && #[trigger] r(y, x) implies x == y by {
        if x.0 == y.0 {
            assert(le_b(x.1, y.1) && le_b(y.1, x.1));
            assert(x.1 == y.1);
        } else {
            assert(le_a(x.0, y.0) && le_a(y.0, x.0));
            assert(x.0 == y.0);
        }
    }
    assert forall|x: (A, B), y: (A, B), z: (A, B)|
        #[trigger] r(x, y) && #[trigger] r(y, z) implies r(x, z) by {
        if x.0 == y.0 && y.0 == z.0 {
            assert(le_b(x.1, y.1) && le_b(y.1, z.1));
        } else if x.0 == y.0 {
            assert(le_a(y.0, z.0));
        } else if y.0 == z.0 {
            assert(le_a(x.0, y.0));
        } else {
            assert(le_a(x.0, y.0) && le_a(y.0, z.0));
            assert(le_a(x.0, z.0));
            if x.0 == z.0 {
                assert(le_a(y.0, x.0));
                assert(x.0 == y.0);
            }
        }
    }
    assert forall|x: (A, B), y: (A, B)| #[trigger] r(x, y) || #[trigger] r(y, x) by {
        if x.0 == y.0 {
            assert(le_b(x.1, y.1) || le_b(y.1, x.1));
        } else {
            assert(le_a(x.0, y.0) || le_a(y.0, x.0));
        }
    }
}

/// Compares two byte vectors for equality of contents.
pub fn bytes_eq(a: &Vec<u8>, b: &Vec<u8>) -> (r: bool)
    ensures
        r == (a@ == b@),
{
    if a.len() != b.len() {
        proof {
            assert(a@ != b@);
        }
        return false;
    }
    let n = a.len();
    let mut i: usize = 0;
    while i < n
        invariant
            n == a.len() == b.len(),
            0 <= i <= n,
            forall|j: int| 0 <= j < i ==> a@[j] == b@[j],
        decreases n - i,
    {
        if a[i] != b[i] {
            proof {
                assert(a@[i as int] != b@[i as int]);
            }
            return false;
        }
        i = i + 1;
    }
    proof {
        assert(a@ =~= b@);
    }
    true
}

/// Decides the lexicographic order on byte vectors.
pub fn bytes_le_exec(a: &Vec<u8>, b: &Vec<u8>) -> (r: bool)
    ensures
        r == bytes_le(a@, b@),
{
    let mut i: usize = 0;
    proof {
        assert(a@.skip(0) =~= a@);
        assert(b@.skip(0) =~= b@);
    }
    loop
        invariant
            0 <= i <= a.len(),
            i <= b.len(),
            bytes_le(a@, b@) == bytes_le(a@.skip(i as int), b@.skip(i as int)),
            forall|j: int| 0 <= j < i ==> a@[j] == b@[j],
        decreases a.len() - i,
    {
        if i == a.len() {
            proof {
                assert(a@.skip(i as int).len() == 0);
            }
            return true;
        }
        if i == b.len() {
            proof {
                assert(b@.skip(i as int).len() == 0);
                assert(a@.skip(i as int).len() > 0);
            }
            return false;
        }
        let x = a[i];
        let y = b[i];
        proof {
            assert(a@.skip(i as int).first() == a@[i as int]);
            assert(b@.skip(i as int).first() == b@[i as int]);
            assert(a@.skip(i as int).drop_first() =~= a@.skip(i as int + 1));
            assert(b@.skip(i as int).drop_first() =~= b@.skip(i as int + 1));
        }
        if x < y {
            return true;
        }
        if x > y {
            return false;
        }
        i = i + 1;
    }
}

} // verus!
