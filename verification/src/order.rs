//! Stable sorting by a rank, and the order of strings.

use crate::table::view_each;
use crate::text::chars_of;
use vstd::prelude::*;

verus! {

/// Whether `a` comes before `b` in the order of strings, comparing from
/// index `from` on: character by character, a proper prefix first.
pub open spec fn text_lt_from(a: Seq<char>, b: Seq<char>, from: int) -> bool
    decreases b.len() - from,
{
    if from < 0 || from >= b.len() {
        false
    } else if from >= a.len() {
        true
    } else if a[from] != b[from] {
        a[from] < b[from]
    } else {
        text_lt_from(a, b, from + 1)
    }
}

/// Whether `a` comes before `b` in the order of strings.
pub open spec fn text_lt(a: Seq<char>, b: Seq<char>) -> bool {
    text_lt_from(a, b, 0)
}

/// No string comes before itself.
pub proof fn lemma_text_lt_irreflexive(a: Seq<char>, from: int)
    ensures
        !text_lt_from(a, a, from),
    decreases a.len() - from,
{
    if 0 <= from < a.len() {
        lemma_text_lt_irreflexive(a, from + 1);
    }
}

/// The order of strings is transitive.
pub proof fn lemma_text_lt_transitive(a: Seq<char>, b: Seq<char>, c: Seq<char>, from: int)
    requires
        text_lt_from(a, b, from),
        text_lt_from(b, c, from),
    ensures
        text_lt_from(a, c, from),
    decreases c.len() - from,
{
    if from < a.len() && a[from] == b[from] && b[from] == c[from] {
        lemma_text_lt_transitive(a, b, c, from + 1);
    }
}

/// Of two different strings one comes before the other. Stated from index
/// `from` on, for strings that agree before it.
pub proof fn lemma_text_lt_total(a: Seq<char>, b: Seq<char>, from: int)
    requires
        0 <= from <= a.len(),
        from <= b.len(),
        a.subrange(0, from) == b.subrange(0, from),
        a != b,
    ensures
        text_lt_from(a, b, from) || text_lt_from(b, a, from),
    decreases a.len() - from,
{
    if from >= a.len() {
        if from >= b.len() {
            assert(a =~= a.subrange(0, from));
            assert(b =~= b.subrange(0, from));
        }
    } else if from < b.len() && a[from] == b[from] {
        assert(a.subrange(0, from + 1) =~= a.subrange(0, from).push(a[from]));
        assert(b.subrange(0, from + 1) =~= b.subrange(0, from).push(b[from]));
        lemma_text_lt_total(a, b, from + 1);
    }
}

/// Whether `a` comes before `b` in the order of strings.
pub fn text_less(a: &str, b: &str) -> (r: bool)
    ensures
        r == text_lt(a@, b@),
{
    let x = chars_of(a);
    let y = chars_of(b);
    let mut i: usize = 0;
    while i < y.len()
        invariant
            i <= y.len(),
            x@ == a@,
            y@ == b@,
            text_lt(a@, b@) == text_lt_from(a@, b@, i as int),
        decreases y.len() - i,
    {
        if i >= x.len() {
            return true;
        }
        if x[i] != y[i] {
            return x[i] < y[i];
        }
        i = i + 1;
    }
    false
}

/// A type whose values are ranked by a strict order on their views.
pub trait Ranked: View + Sized {
    /// Whether a value seen as `a` ranks before one seen as `b`.
    spec fn rank_lt(a: Self::V, b: Self::V) -> bool;

    /// The rank is a strict order: nothing ranks before itself, and the
    /// rank is transitive.
    proof fn lemma_rank_strict(a: Self::V, b: Self::V, c: Self::V)
        ensures
            !Self::rank_lt(a, a),
            Self::rank_lt(a, b) && Self::rank_lt(b, c) ==> Self::rank_lt(a, c),
    ;

    /// Whether `self` ranks before `other`.
    fn less(&self, other: &Self) -> (r: bool)
        ensures
            r == Self::rank_lt(self@, other@),
    ;
}

/// The place of `x` in the ordered sequence `s`, searched from `from` on:
/// before the first element that ranks after `x`, so behind every element
/// of equal rank.
pub open spec fn insert_point<T: Ranked>(s: Seq<T::V>, x: T::V, from: int) -> int
    decreases s.len() - from,
{
    if from < 0 || from >= s.len() {
        s.len() as int
    } else if T::rank_lt(x, s[from]) {
        from
    } else {
        insert_point::<T>(s, x, from + 1)
    }
}

/// The elements of `s` in the order of their rank, elements of equal rank
/// in the order in which they stand in `s`.
pub open spec fn spec_sorted<T: Ranked>(s: Seq<T::V>) -> Seq<T::V>
    decreases s.len(),
{
    if s.len() == 0 {
        Seq::empty()
    } else {
        spec_sorted::<T>(s.drop_last()).insert(
            insert_point::<T>(spec_sorted::<T>(s.drop_last()), s.last(), 0),
            s.last(),
        )
    }
}

/// No element stands before an element that it should follow.
pub open spec fn is_ordered<T: Ranked>(s: Seq<T::V>) -> bool {
    forall|i: int, j: int| 0 <= i < j < s.len() ==> !T::rank_lt(#[trigger] s[j], #[trigger] s[i])
}

/// The insert point lies inside the sequence or at its end; no element
/// before it ranks after `x`, and the element at it does.
pub proof fn lemma_insert_point<T: Ranked>(s: Seq<T::V>, x: T::V, from: int)
    requires
        0 <= from <= s.len(),
    ensures
        from <= insert_point::<T>(s, x, from) <= s.len(),
        forall|i: int|
            from <= i < insert_point::<T>(s, x, from) ==> !T::rank_lt(x, #[trigger] s[i]),
        insert_point::<T>(s, x, from) < s.len() ==> T::rank_lt(
            x,
            s[insert_point::<T>(s, x, from)],
        ),
    decreases s.len() - from,
{
    if from < s.len() && !T::rank_lt(x, s[from]) {
        lemma_insert_point::<T>(s, x, from + 1);
    }
}

/// Sorting keeps every element, as often as it occurs.
pub proof fn lemma_sorted_is_permutation<T: Ranked>(s: Seq<T::V>)
    ensures
        spec_sorted::<T>(s).len() == s.len(),
        spec_sorted::<T>(s).to_multiset() == s.to_multiset(),
    decreases s.len(),
{
    broadcast use vstd::seq_lib::group_to_multiset_ensures;

    if s.len() > 0 {
        let rest = s.drop_last();
        lemma_sorted_is_permutation::<T>(rest);
        let sorted = spec_sorted::<T>(rest);
        let at = insert_point::<T>(sorted, s.last(), 0);
        lemma_insert_point::<T>(sorted, s.last(), 0);
        vstd::seq_lib::to_multiset_insert(sorted, at, s.last());
        assert(s =~= rest.push(s.last()));
    }
}

/// What sorting yields is in order.
pub proof fn lemma_sorted_is_ordered<T: Ranked>(s: Seq<T::V>)
    ensures
        is_ordered::<T>(spec_sorted::<T>(s)),
    decreases s.len(),
{
    if s.len() > 0 {
        let rest = s.drop_last();
        lemma_sorted_is_ordered::<T>(rest);
        let sorted = spec_sorted::<T>(rest);
        let x = s.last();
        let at = insert_point::<T>(sorted, x, 0);
        lemma_insert_point::<T>(sorted, x, 0);
        let r = sorted.insert(at, x);
        assert forall|i: int, j: int| 0 <= i < j < r.len() implies !T::rank_lt(
            #[trigger] r[j],
            #[trigger] r[i],
        ) by {
            if j < at {
                assert(r[i] == sorted[i] && r[j] == sorted[j]);
            } else if j == at {
                assert(r[i] == sorted[i]);
                assert(!T::rank_lt(x, sorted[i]));
            } else if i < at {
                assert(r[i] == sorted[i] && r[j] == sorted[j - 1]);
            } else if i == at {
                assert(r[j] == sorted[j - 1]);
                T::lemma_rank_strict(sorted[j - 1], x, sorted[at]);
                T::lemma_rank_strict(x, sorted[at], x);
                T::lemma_rank_strict(x, x, x);
                if j - 1 > at {
                    assert(!T::rank_lt(sorted[j - 1], sorted[at]));
                }
            } else {
                assert(r[i] == sorted[i - 1] && r[j] == sorted[j - 1]);
            }
        }
    }
}

/// Sorts by rank. Elements of equal rank keep their order.
pub fn stable_sort<T: Ranked>(items: Vec<T>) -> (r: Vec<T>)
    ensures
        view_each(r@) == spec_sorted::<T>(view_each(items@)),
{
    let ghost all = view_each(items@);
    let mut rest = items;
    let mut out: Vec<T> = Vec::new();
    let ghost mut done: int = 0;
    assert(all.subrange(0, 0) =~= Seq::<T::V>::empty());
    assert(view_each(out@) =~= Seq::<T::V>::empty());
    assert(all.subrange(0, all.len() as int) =~= all);
    while rest.len() > 0
        invariant
            0 <= done <= all.len(),
            view_each(rest@) == all.subrange(done, all.len() as int),
            view_each(out@) == spec_sorted::<T>(all.subrange(0, done)),
        decreases rest.len(),
    {
        let ghost before = rest@;
        proof {
            assert(view_each(before).len() == before.len());
            assert(done < all.len());
        }
        let x = rest.remove(0);
        let ghost sorted = view_each(out@);
        proof {
            assert(view_each(before)[0] == x@);
            let next = all.subrange(0, done + 1);
            assert(next.drop_last() =~= all.subrange(0, done));
            assert(all.subrange(done, all.len() as int)[0] == all[done]);
            assert(next.last() == x@);
            assert forall|i: int| 0 <= i < rest@.len() implies view_each(rest@)[i]
                == all.subrange(done + 1, all.len() as int)[i] by {
                assert(rest@[i] == before[i + 1]);
                assert(view_each(before)[i + 1] == all.subrange(done, all.len() as int)[i + 1]);
            }
            assert(view_each(rest@) =~= all.subrange(done + 1, all.len() as int));
        }
        let mut at: usize = 0;
        while at < out.len() && !x.less(&out[at])
            invariant
                at <= out.len(),
                sorted == view_each(out@),
                insert_point::<T>(sorted, x@, 0) == insert_point::<T>(sorted, x@, at as int),
            decreases out.len() - at,
        {
            at = at + 1;
        }
        out.insert(at, x);
        proof {
            assert(view_each(out@) =~= sorted.insert(at as int, x@));
            done = done + 1;
        }
    }
    assert(all.subrange(0, done) =~= all);
    out
}

impl Ranked for String {
    open spec fn rank_lt(a: Seq<char>, b: Seq<char>) -> bool {
        text_lt(a, b)
    }

    proof fn lemma_rank_strict(a: Seq<char>, b: Seq<char>, c: Seq<char>) {
        lemma_text_lt_irreflexive(a, 0);
        if text_lt(a, b) && text_lt(b, c) {
            lemma_text_lt_transitive(a, b, c, 0);
        }
    }

    fn less(&self, other: &Self) -> (r: bool) {
        text_less(self.as_str(), other.as_str())
    }
}

} // verus!
