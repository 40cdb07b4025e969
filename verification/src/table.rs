//! Looking a record up in a sequence by a predicate.

use vstd::prelude::*;

verus! {

/// The greatest index whose element satisfies `hit`, if there is one.
pub open spec fn find_last<T>(s: Seq<T>, hit: spec_fn(T) -> bool) -> Option<int>
    decreases s.len(),
{
    if s.len() == 0 {
        None
    } else if hit(s.last()) {
        Some(s.len() - 1)
    } else {
        find_last(s.drop_last(), hit)
    }
}

/// A found index is in range and its element satisfies the predicate; when
/// nothing is found, no element does.
pub proof fn lemma_find_last<T>(s: Seq<T>, hit: spec_fn(T) -> bool)
    ensures
        match find_last(s, hit) {
            Some(i) => 0 <= i < s.len() && hit(s[i]) && forall|j: int| i < j < s.len() ==> !hit(s[j]),
            None => forall|j: int| 0 <= j < s.len() ==> !hit(s[j]),
        },
    decreases s.len(),
{
    if s.len() > 0 && !hit(s.last()) {
        let front = s.drop_last();
        lemma_find_last(front, hit);
        assert(forall|j: int| 0 <= j < front.len() ==> front[j] == s[j]);
        match find_last(front, hit) {
            Some(i) => {
                assert forall|j: int| i < j < s.len() implies !hit(s[j]) by {
                    if j < front.len() {
                        assert(front[j] == s[j]);
                    }
                }
            },
            None => {
                assert forall|j: int| 0 <= j < s.len() implies !hit(s[j]) by {
                    if j < front.len() {
                        assert(front[j] == s[j]);
                    }
                }
            },
        }
    }
}

/// Where exactly one element satisfies the predicate, that one is found.
pub proof fn lemma_find_last_unique<T>(s: Seq<T>, hit: spec_fn(T) -> bool, i: int)
    requires
        0 <= i < s.len(),
        hit(s[i]),
        forall|j: int| 0 <= j < s.len() && j != i ==> !hit(s[j]),
    ensures
        find_last(s, hit) == Some(i),
{
    lemma_find_last(s, hit);
}

/// A lookup does not change when every element keeps its answer to the
/// predicate.
pub proof fn lemma_find_last_same_hits<T>(s: Seq<T>, t: Seq<T>, hit: spec_fn(T) -> bool)
    requires
        s.len() == t.len(),
        forall|j: int| 0 <= j < s.len() ==> hit(s[j]) == hit(t[j]),
    ensures
        find_last(s, hit) == find_last(t, hit),
    decreases s.len(),
{
    if s.len() > 0 {
        assert(hit(s.last()) == hit(t.last()));
        if !hit(s.last()) {
            let s0 = s.drop_last();
            let t0 = t.drop_last();
            assert forall|j: int| 0 <= j < s0.len() implies hit(s0[j]) == hit(t0[j]) by {
                assert(s0[j] == s[j]);
                assert(t0[j] == t[j]);
            }
            lemma_find_last_same_hits(s0, t0, hit);
        }
    }
}

/// A lookup after one more element: the new element if it satisfies the
/// predicate, else what was found before.
pub proof fn lemma_find_last_push<T>(s: Seq<T>, x: T, hit: spec_fn(T) -> bool)
    ensures
        find_last(s.push(x), hit) == if hit(x) {
            Some(s.len() as int)
        } else {
            find_last(s, hit)
        },
{
    assert(s.push(x).drop_last() == s);
    assert(s.push(x).last() == x);
}

} // verus!
