//! Byte strings: equality with a literal and lexicographic order.

use vstd::prelude::*;

verus! {

/// `a` comes strictly before `b` in lexicographic byte order: at the first
/// position where they differ `a` holds the smaller byte, or `a` is a proper
/// prefix of `b`.
pub open spec fn lex_lt(a: Seq<u8>, b: Seq<u8>) -> bool {
    exists|k: int|
        #![trigger a.subrange(0, k), b.subrange(0, k)]
        0 <= k <= a.len() && k <= b.len() && a.subrange(0, k) == b.subrange(0, k) && (
        (k == a.len() && k < b.len()) || (k < a.len() && k < b.len() && a[k] < b[k]))
}

/// Three-way comparison: `-1` when `a` comes first, `1` when `b` comes first,
/// `0` when they are equal.
pub fn compare_bytes(a: &[u8], b: &[u8]) -> (r: i8)
    ensures
        r == -1 <==> lex_lt(a@, b@),
        r == 1 <==> lex_lt(b@, a@),
        r == 0 <==> a@ == b@,
        r == -1 || r == 0 || r == 1,
{
    let mut i: usize = 0;
    while i < a.len() && i < b.len() && a[i] == b[i]
        invariant
            i <= a@.len(),
            i <= b@.len(),
            a@.subrange(0, i as int) == b@.subrange(0, i as int),
        decreases a@.len() - i,
    {
        assert(a@.subrange(0, i + 1) == a@.subrange(0, i as int).push(a@[i as int]));
        assert(b@.subrange(0, i + 1) == b@.subrange(0, i as int).push(b@[i as int]));
        i = i + 1;
    }
    let ghost k = i as int;
    assert(a@.subrange(0, k) == b@.subrange(0, k));
    if i < a.len() && i < b.len() {
        if a[i] < b[i] {
            assert(lex_lt(a@, b@));
            proof { lemma_first_difference(a@, b@, k); }
            -1
        } else {
            assert(lex_lt(b@, a@));
            proof { lemma_first_difference(b@, a@, k); }
            1
        }
    } else if i < b.len() {
        assert(lex_lt(a@, b@));
        proof { lemma_first_difference(a@, b@, k); }
        -1
    } else if i < a.len() {
        assert(lex_lt(b@, a@));
        proof { lemma_first_difference(b@, a@, k); }
        1
    } else {
        assert(a@ == a@.subrange(0, k));
        assert(b@ == b@.subrange(0, k));
        proof { lemma_not_lt_self(a@); }
        0
    }
}

/// A byte string never comes before itself.
pub proof fn lemma_not_lt_self(a: Seq<u8>)
    ensures
        !lex_lt(a, a),
{
}

/// Where `a` and `b` agree up to `k` and `a` is smaller at `k` (or ends
/// there while `b` goes on), `b` does not come before `a` and they differ.
pub proof fn lemma_first_difference(a: Seq<u8>, b: Seq<u8>, k: int)
    requires
        0 <= k <= a.len(),
        k <= b.len(),
        a.subrange(0, k) == b.subrange(0, k),
        (k == a.len() && k < b.len()) || (k < a.len() && k < b.len() && a[k] < b[k]),
    ensures
        !lex_lt(b, a),
        a != b,
{
    if lex_lt(b, a) {
        let j = choose|j: int|
            #![trigger b.subrange(0, j), a.subrange(0, j)]
            0 <= j <= b.len() && j <= a.len() && b.subrange(0, j) == a.subrange(0, j) && (
            (j == b.len() && j < a.len()) || (j < b.len() && j < a.len() && b[j] < a[j]));
        if j < k {
            assert(a.subrange(0, k)[j] == a[j]);
            assert(b.subrange(0, k)[j] == b[j]);
        } else if j > k {
            assert(a.subrange(0, j)[k] == a[k]);
            assert(b.subrange(0, j)[k] == b[k]);
        }
    }
    if a == b {
        assert(a.len() == b.len());
    }
}

/// Whether `name` holds exactly the bytes of `lit`.
pub fn bytes_equal(name: &[u8], lit: &[u8]) -> (r: bool)
    ensures
        r == (name@ == lit@),
{
    compare_bytes(name, lit) == 0
}

} // verus!
