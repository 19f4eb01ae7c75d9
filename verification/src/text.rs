//! String comparisons: equality and the lexicographic order by code point.
use vstd::prelude::*;

verus! {

/// Strict lexicographic order on character sequences, by code point, as
/// `str`'s `Ord` compares them.
pub open spec fn lex_lt(a: Seq<char>, b: Seq<char>) -> bool {
    exists|k: int| #[trigger] lex_lt_at(a, b, k)
}

/// `a` and `b` agree before index `k`, and index `k` is where `a` stops or
/// holds the smaller character.
pub open spec fn lex_lt_at(a: Seq<char>, b: Seq<char>, k: int) -> bool {
    &&& 0 <= k <= a.len()
    &&& k <= b.len()
    &&& forall|j: int| 0 <= j < k ==> a[j] == b[j]
    &&& {
        ||| (k == a.len() && k < b.len())
        ||| (k < a.len() && k < b.len() && (a[k] as int) < (b[k] as int))
    }
}

/// Lexicographic order is transitive.
pub proof fn lemma_lex_lt_transitive(a: Seq<char>, b: Seq<char>, c: Seq<char>)
    requires
        lex_lt(a, b),
        lex_lt(b, c),
    ensures
        lex_lt(a, c),
{
    let k1 = choose|k: int| #[trigger] lex_lt_at(a, b, k);
    let k2 = choose|k: int| #[trigger] lex_lt_at(b, c, k);
    if k1 < k2 {
        assert(lex_lt_at(a, c, k1));
    } else if k2 < k1 {
        assert(lex_lt_at(a, c, k2));
    } else {
        assert(lex_lt_at(a, c, k1));
    }
}

/// Lexicographic order is irreflexive and asymmetric.
pub proof fn lemma_lex_lt_asymmetric(a: Seq<char>, b: Seq<char>)
    requires
        lex_lt(a, b),
    ensures
        !lex_lt(b, a),
        a != b,
{
    let k1 = choose|k: int| #[trigger] lex_lt_at(a, b, k);
    if lex_lt(b, a) {
        let k2 = choose|k: int| #[trigger] lex_lt_at(b, a, k);
        if k1 < k2 {
            assert(a[k1] == b[k1]);
        } else if k2 < k1 {
            assert(a[k2] == b[k2]);
        }
    }
    if a == b {
        if k1 < a.len() {
            assert(a[k1] == b[k1]);
        }
    }
}

/// Two distinct sequences are ordered one way or the other.
pub proof fn lemma_lex_lt_total(a: Seq<char>, b: Seq<char>)
    requires
        a != b,
    ensures
        lex_lt(a, b) || lex_lt(b, a),
{
    let n = if a.len() < b.len() { a.len() as int } else { b.len() as int };
    if forall|j: int| 0 <= j < n ==> a[j] == b[j] {
        if a.len() == b.len() {
            assert(a =~= b);
        } else if a.len() < b.len() {
            assert(lex_lt_at(a, b, n));
        } else {
            assert(lex_lt_at(b, a, n));
        }
    } else {
        let k = first_difference(a, b, 0, n);
        if (a[k] as int) < (b[k] as int) {
            assert(lex_lt_at(a, b, k));
        } else {
            assert(lex_lt_at(b, a, k));
        }
    }
}

/// The first index before `n`, from `i` on, at which two sequences differ,
/// given that they agree before `i` and differ somewhere before `n`.
pub proof fn first_difference<T>(a: Seq<T>, b: Seq<T>, i: int, n: int) -> (k: int)
    requires
        0 <= i <= n,
        n <= a.len(),
        n <= b.len(),
        forall|j: int| 0 <= j < i ==> a[j] == b[j],
        exists|j: int| i <= j < n && a[j] != b[j],
    ensures
        i <= k < n,
        a[k] != b[k],
        forall|j: int| 0 <= j < k ==> a[j] == b[j],
    decreases n - i,
{
    if a[i] != b[i] {
        i
    } else {
        first_difference(a, b, i + 1, n)
    }
}

/// Compares two strings by the order of [`lex_lt`].
pub fn str_lt(a: &str, b: &str) -> (r: bool)
    ensures
        r == lex_lt(a@, b@),
{
    let la = a.unicode_len();
    let lb = b.unicode_len();
    let mut i: usize = 0;
    while i < la && i < lb
        invariant
            la == a@.len(),
            lb == b@.len(),
            i <= la,
            i <= lb,
            forall|j: int| 0 <= j < i ==> a@[j] == b@[j],
        decreases la - i,
    {
        let ca = a.get_char(i);
        let cb = b.get_char(i);
        if ca != cb {
            proof {
                if (ca as int) < (cb as int) {
                    assert(lex_lt_at(a@, b@, i as int));
                } else {
                    assert(lex_lt_at(b@, a@, i as int));
                    lemma_lex_lt_asymmetric(b@, a@);
                }
            }
            return (ca as u32) < (cb as u32);
        }
        i = i + 1;
    }
    proof {
        if i < lb {
            assert(lex_lt_at(a@, b@, i as int));
        } else if lex_lt(a@, b@) {
            let k = choose|k: int| #[trigger] lex_lt_at(a@, b@, k);
            if k < i {
                assert(a@[k] == b@[k]);
            }
        }
    }
    i < lb
}

/// Tells whether two strings hold the same characters.
pub fn str_eq(a: &str, b: &str) -> (r: bool)
    ensures
        r == (a@ == b@),
{
    let la = a.unicode_len();
    let lb = b.unicode_len();
    if la != lb {
        return false;
    }
    let mut i: usize = 0;
    while i < la
        invariant
            la == a@.len(),
            lb == b@.len(),
            la == lb,
            i <= la,
            forall|j: int| 0 <= j < i ==> a@[j] == b@[j],
        decreases la - i,
    {
        if a.get_char(i) != b.get_char(i) {
            return false;
        }
        i = i + 1;
    }
    assert(a@ =~= b@);
    true
}

} // verus!
