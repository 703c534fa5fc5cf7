//! Facts about sequences that the proofs on frames and registries use.

use vstd::prelude::*;

verus! {

/// What a sequence holds after an insertion: the new element and what it held before.
pub proof fn lemma_insert_contains<A>(s: Seq<A>, at: int, x: A, y: A)
    requires
        0 <= at <= s.len(),
    ensures
        s.insert(at, x).contains(y) <==> (y == x || s.contains(y)),
{
    let t = s.insert(at, x);
    if t.contains(y) {
        let i = choose|i: int| 0 <= i < t.len() && t[i] == y;
        if i < at {
            assert(s[i] == y);
        } else if i > at {
            assert(s[i - 1] == y);
        }
    }
    if y == x {
        assert(t[at] == y);
    }
    if s.contains(y) {
        let i = choose|i: int| 0 <= i < s.len() && s[i] == y;
        if i < at {
            assert(t[i] == y);
        } else {
            assert(t[i + 1] == y);
        }
    }
}

/// Inserting an element that a sequence without repetition lacks leaves it without
/// repetition.
pub proof fn lemma_insert_no_duplicates<A>(s: Seq<A>, at: int, x: A)
    requires
        0 <= at <= s.len(),
        s.no_duplicates(),
        !s.contains(x),
    ensures
        s.insert(at, x).no_duplicates(),
{
    let t = s.insert(at, x);
    assert forall|i: int, j: int| 0 <= i < t.len() && 0 <= j < t.len() && i != j implies t[i]
        != t[j] by {
        let a = if i < at {
            i
        } else {
            i - 1
        };
        let b = if j < at {
            j
        } else {
            j - 1
        };
        if i == at {
            assert(t[j] == s[b]);
        } else if j == at {
            assert(t[i] == s[a]);
        } else {
            assert(t[i] == s[a]);
            assert(t[j] == s[b]);
        }
    }
}

/// What a sequence without repetition holds after a removal: what it held before, but for
/// the element removed. It stays without repetition.
pub proof fn lemma_remove_no_duplicates<A>(s: Seq<A>, at: int)
    requires
        0 <= at < s.len(),
        s.no_duplicates(),
    ensures
        s.remove(at).no_duplicates(),
        forall|y: A| #[trigger] s.remove(at).contains(y) <==> (s.contains(y) && y != s[at]),
{
    let t = s.remove(at);
    assert forall|i: int, j: int| 0 <= i < t.len() && 0 <= j < t.len() && i != j implies t[i]
        != t[j] by {
        let a = if i < at {
            i
        } else {
            i + 1
        };
        let b = if j < at {
            j
        } else {
            j + 1
        };
        assert(t[i] == s[a]);
        assert(t[j] == s[b]);
    }
    assert forall|y: A| #[trigger] t.contains(y) <==> (s.contains(y) && y != s[at]) by {
        if t.contains(y) {
            let i = choose|i: int| 0 <= i < t.len() && t[i] == y;
            let a = if i < at {
                i
            } else {
                i + 1
            };
            assert(s[a] == y);
        }
        if s.contains(y) && y != s[at] {
            let a = choose|a: int| 0 <= a < s.len() && s[a] == y;
            if a < at {
                assert(t[a] == y);
            } else {
                assert(t[a - 1] == y);
            }
        }
    }
}

/// In a sequence without repetition an element stands at one place only.
pub proof fn lemma_index_of_unique<A>(s: Seq<A>, at: int)
    requires
        0 <= at < s.len(),
        s.no_duplicates(),
    ensures
        s.index_of(s[at]) == at,
{
    let i = s.index_of(s[at]);
    assert(0 <= i < s.len() && s[i] == s[at]);
}

} // verus!
