//! Sequences without repetition, used where the coordinator keeps a set in the
//! order in which its elements arrived.

use vstd::prelude::*;

verus! {

/// `s` with `x` in it: unchanged if `x` is there, else with `x` at the end.
pub open spec fn with_item<A>(s: Seq<A>, x: A) -> Seq<A> {
    if s.contains(x) {
        s
    } else {
        s.push(x)
    }
}

/// `s` without the first `x` in it.
pub open spec fn without_item<A>(s: Seq<A>, x: A) -> Seq<A> {
    if s.contains(x) {
        s.remove(s.index_of(x))
    } else {
        s
    }
}

/// In a sequence without repetition an element's index is the only place
/// where it stands.
pub proof fn lemma_index_unique<A>(s: Seq<A>, i: int, x: A)
    requires
        s.no_duplicates(),
        0 <= i < s.len(),
        s[i] == x,
    ensures
        s.contains(x),
        s.index_of(x) == i,
{
    assert(s.contains(x));
    let j = s.index_of(x);
    assert(0 <= j < s.len() && s[j] == x);
}

/// The index of an element that a sequence holds is a place where it stands.
pub proof fn lemma_index_of<A>(s: Seq<A>, x: A)
    requires
        s.contains(x),
    ensures
        0 <= s.index_of(x) < s.len(),
        s[s.index_of(x)] == x,
{
    let j = choose|j: int| 0 <= j < s.len() && s[j] == x;
    assert(0 <= j < s.len() && s[j] == x);
}

/// Adding an element keeps a sequence free of repetition and adds nothing else.
pub proof fn lemma_with_item<A>(s: Seq<A>, x: A)
    requires
        s.no_duplicates(),
    ensures
        with_item(s, x).no_duplicates(),
        forall|y: A| #[trigger] with_item(s, x).contains(y) <==> (y == x || s.contains(y)),
{
    let t = with_item(s, x);
    assert forall|y: A| #[trigger] t.contains(y) <==> (y == x || s.contains(y)) by {
        if t.contains(y) {
            let j = choose|j: int| 0 <= j < t.len() && t[j] == y;
            if j < s.len() {
                assert(s[j] == y);
            }
        }
        if s.contains(y) {
            let j = choose|j: int| 0 <= j < s.len() && s[j] == y;
            assert(t[j] == y);
        }
        if y == x && !s.contains(x) {
            assert(t[s.len() as int] == x);
        }
    }
}

/// Removing an element keeps a sequence free of repetition and removes
/// nothing else.
pub proof fn lemma_without_item<A>(s: Seq<A>, x: A)
    requires
        s.no_duplicates(),
    ensures
        without_item(s, x).no_duplicates(),
        forall|y: A| #[trigger] without_item(s, x).contains(y) <==> (y != x && s.contains(y)),
{
    let t = without_item(s, x);
    if s.contains(x) {
        let k = s.index_of(x);
        assert(0 <= k < s.len() && s[k] == x);
        assert forall|y: A| #[trigger] t.contains(y) <==> (y != x && s.contains(y)) by {
            if t.contains(y) {
                let j = choose|j: int| 0 <= j < t.len() && t[j] == y;
                if j < k {
                    assert(s[j] == y);
                } else {
                    assert(s[j + 1] == y);
                }
            }
            if y != x && s.contains(y) {
                let j = choose|j: int| 0 <= j < s.len() && s[j] == y;
                if j < k {
                    assert(t[j] == y);
                } else {
                    assert(t[j - 1] == y);
                }
            }
        }
        assert forall|a: int, b: int| 0 <= a < t.len() && 0 <= b < t.len() && a != b implies t[a]
            != t[b] by {
            let sa = if a < k { a } else { a + 1 };
            let sb = if b < k { b } else { b + 1 };
            assert(t[a] == s[sa] && t[b] == s[sb]);
        }
    } else {
        assert forall|y: A| #[trigger] t.contains(y) <==> (y != x && s.contains(y)) by {}
    }
}

/// Enters `x` in `v` unless it is there.
pub(crate) fn add_item(v: &mut Vec<u64>, x: u64)
    ensures
        final(v)@ == with_item(old(v)@, x),
{
    let mut i: usize = 0;
    while i < v.len()
        invariant
            v@ == old(v)@,
            i <= v@.len(),
            forall|j: int| 0 <= j < i ==> v@[j] != x,
        decreases v@.len() - i,
    {
        if v[i] == x {
            return ;
        }
        i += 1;
    }
    v.push(x);
}

/// Takes `x` out of `v` and says whether it was there.
pub(crate) fn remove_item(v: &mut Vec<u64>, x: u64) -> (found: bool)
    requires
        old(v)@.no_duplicates(),
    ensures
        final(v)@ == without_item(old(v)@, x),
        found == old(v)@.contains(x),
{
    let mut i: usize = 0;
    while i < v.len()
        invariant
            v@ == old(v)@,
            v@.no_duplicates(),
            i <= v@.len(),
            forall|j: int| 0 <= j < i ==> v@[j] != x,
        decreases v@.len() - i,
    {
        if v[i] == x {
            proof {
                lemma_index_unique(v@, i as int, x);
            }
            v.remove(i);
            return true;
        }
        i += 1;
    }
    false
}

} // verus!
