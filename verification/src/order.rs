//! Ordering machinery shared by the repository's query paths: a canonical
//! insertion sort over an arbitrary relation, and the first position at
//! which a predicate holds in a sequence.

use vstd::prelude::*;

verus! {

/// The first index of `s` whose element satisfies `p`, or `-1` if none does.
pub open spec fn first_where<T>(p: spec_fn(T) -> bool, s: Seq<T>) -> int
    decreases s.len(),
{
    if s.len() == 0 {
        -1
    } else if p(s[0]) {
        0
    } else {
        let r = first_where(p, s.drop_first());
        if r == -1 {
            -1
        } else {
            r + 1
        }
    }
}

/// A scan that stopped at `i`, having seen no earlier match, found the
/// first match.
pub proof fn lemma_first_where_at<T>(p: spec_fn(T) -> bool, s: Seq<T>, i: int)
    requires
        0 <= i < s.len(),
        p(s[i]),
        forall|k: int| 0 <= k < i ==> !p(#[trigger] s[k]),
    ensures
        first_where(p, s) == i,
    decreases i,
{
    if i > 0 {
        lemma_first_where_at(p, s.drop_first(), i - 1);
    }
}

/// A scan that saw no match at all means there is no first match.
pub proof fn lemma_first_where_none<T>(p: spec_fn(T) -> bool, s: Seq<T>)
    requires
        forall|k: int| 0 <= k < s.len() ==> !p(#[trigger] s[k]),
    ensures
        first_where(p, s) == -1,
    decreases s.len(),
{
    if s.len() > 0 {
        lemma_first_where_none(p, s.drop_first());
    }
}

/// What the first match is: either there is none and every element fails
/// `p`, or it is a valid index, satisfies `p`, and nothing before it does.
pub proof fn lemma_first_where_props<T>(p: spec_fn(T) -> bool, s: Seq<T>)
    ensures
        first_where(p, s) == -1 ==> forall|k: int| 0 <= k < s.len() ==> !p(#[trigger] s[k]),
        first_where(p, s) != -1 ==> {
            let i = first_where(p, s);
            &&& 0 <= i < s.len()
            &&& p(s[i])
            &&& forall|k: int| 0 <= k < i ==> !p(#[trigger] s[k])
        },
    decreases s.len(),
{
    if s.len() == 0 {
    } else if p(s[0]) {
    } else {
        let t = s.drop_first();
        lemma_first_where_props(p, t);
        let r = first_where(p, t);
        if r == -1 {
            assert forall|k: int| 0 <= k < s.len() implies !p(#[trigger] s[k]) by {
                if k > 0 {
                    assert(s[k] == t[k - 1]);
                }
            }
        } else {
            assert(first_where(p, s) == r + 1);
            assert(s[r + 1] == t[r]);
            assert forall|k: int| 0 <= k < r + 1 implies !p(#[trigger] s[k]) by {
                if k > 0 {
                    assert(s[k] == t[k - 1]);
                }
            }
        }
    }
}

/// Appending an element that fails `p` leaves the first match unchanged.
pub proof fn lemma_first_where_push_false<T>(p: spec_fn(T) -> bool, s: Seq<T>, x: T)
    requires
        !p(x),
    ensures
        first_where(p, s.push(x)) == first_where(p, s),
    decreases s.len(),
{
    if s.len() == 0 {
        assert(s.push(x)[0] == x);
        assert(s.push(x).drop_first() =~= Seq::<T>::empty());
        assert(first_where(p, s.push(x).drop_first()) == -1);
        assert(first_where(p, s.push(x)) == -1);
        assert(first_where(p, s) == -1);
    } else {
        assert(s.push(x)[0] == s[0]);
        if !p(s[0]) {
            assert(s.push(x).drop_first() =~= s.drop_first().push(x));
            lemma_first_where_push_false(p, s.drop_first(), x);
            assert(first_where(p, s.push(x).drop_first()) == first_where(p, s.drop_first()));
        }
    }
}

/// Two sequences on which `p` agrees position by position have the same
/// first match.
pub proof fn lemma_first_where_pointwise<T>(p: spec_fn(T) -> bool, s1: Seq<T>, s2: Seq<T>)
    requires
        s1.len() == s2.len(),
        forall|k: int| 0 <= k < s1.len() ==> (p(#[trigger] s1[k]) <==> p(#[trigger] s2[k])),
    ensures
        first_where(p, s1) == first_where(p, s2),
    decreases s1.len(),
{
    if s1.len() > 0 {
        assert(p(s1[0]) <==> p(s2[0]));
        if !p(s1[0]) {
            assert(forall|k: int|
                0 <= k < s1.drop_first().len() ==> #[trigger] s1.drop_first()[k] == s1[k + 1]
                    && #[trigger] s2.drop_first()[k] == s2[k + 1]);
            lemma_first_where_pointwise(p, s1.drop_first(), s2.drop_first());
        }
    }
}

/// Insert `x` into `s` immediately before the first element `e` with
/// `le(x, e)`; on an ordered sequence this keeps the order.
pub open spec fn insert_by<T>(le: spec_fn(T, T) -> bool, x: T, s: Seq<T>) -> Seq<T>
    decreases s.len(),
{
    if s.len() == 0 {
        seq![x]
    } else if le(x, s[0]) {
        seq![x] + s
    } else {
        seq![s[0]] + insert_by(le, x, s.drop_first())
    }
}

/// The canonical insertion sort of `s` under `le`.
pub open spec fn sort_by_rel<T>(le: spec_fn(T, T) -> bool, s: Seq<T>) -> Seq<T>
    decreases s.len(),
{
    if s.len() == 0 {
        Seq::empty()
    } else {
        insert_by(le, s[0], sort_by_rel(le, s.drop_first()))
    }
}

/// Adjacent elements of `s` are in order under `le`.
pub open spec fn ordered_by<T>(le: spec_fn(T, T) -> bool, s: Seq<T>) -> bool {
    forall|i: int| 0 <= i && i + 1 < s.len() ==> le(#[trigger] s[i], s[i + 1])
}

/// `le` relates every pair one way or the other, and is transitive.
pub open spec fn total_preorder<T>(le: spec_fn(T, T) -> bool) -> bool {
    &&& forall|a: T, b: T| #[trigger] le(a, b) || #[trigger] le(b, a)
    &&& forall|a: T, b: T, c: T| #[trigger] le(a, b) && #[trigger] le(b, c) ==> le(a, c)
}

/// In an ordered sequence, any earlier element relates to any later one.
pub proof fn lemma_ordered_pairwise<T>(le: spec_fn(T, T) -> bool, s: Seq<T>, i: int, j: int)
    requires
        total_preorder(le),
        ordered_by(le, s),
        0 <= i <= j < s.len(),
    ensures
        i < j ==> le(s[i], s[j]),
    decreases j - i,
{
    if i + 1 < j {
        lemma_ordered_pairwise(le, s, i + 1, j);
    }
}

/// Inserting produces exactly the old sequence with `x` spliced in at some
/// position: `insert_by` never loses, duplicates, or reorders elements.
pub proof fn lemma_insert_by_splice<T>(le: spec_fn(T, T) -> bool, x: T, s: Seq<T>)
    ensures
        exists|k: int|
            0 <= k <= s.len() && insert_by(le, x, s) =~= #[trigger] s.take(k) + seq![x] + s.skip(k),
    decreases s.len(),
{
    if s.len() == 0 {
        assert(insert_by(le, x, s) =~= s.take(0) + seq![x] + s.skip(0));
    } else if le(x, s[0]) {
        assert(insert_by(le, x, s) =~= s.take(0) + seq![x] + s.skip(0));
    } else {
        lemma_insert_by_splice(le, x, s.drop_first());
        let k = choose|k: int|
            0 <= k <= s.drop_first().len() && insert_by(le, x, s.drop_first())
                =~= #[trigger] s.drop_first().take(k) + seq![x] + s.drop_first().skip(k);
        assert(insert_by(le, x, s) =~= s.take(k + 1) + seq![x] + s.skip(k + 1));
    }
}

/// Inserting into an ordered sequence keeps it ordered.
pub proof fn lemma_insert_by_ordered<T>(le: spec_fn(T, T) -> bool, x: T, s: Seq<T>)
    requires
        total_preorder(le),
        ordered_by(le, s),
    ensures
        ordered_by(le, insert_by(le, x, s)),
        insert_by(le, x, s).len() == s.len() + 1,
    decreases s.len(),
{
    if s.len() == 0 {
    } else if le(x, s[0]) {
    } else {
        lemma_insert_by_ordered(le, x, s.drop_first());
        let t = insert_by(le, x, s.drop_first());
        assert(le(s[0], x));
        if t.len() > 0 {
            if s.drop_first().len() > 0 && !le(x, s.drop_first()[0]) {
                assert(t[0] == s.drop_first()[0]);
                assert(le(s[0], t[0]));
            } else {
                assert(t[0] == x);
            }
        }
        assert forall|i: int| 0 <= i && i + 1 < insert_by(le, x, s).len() implies le(
            #[trigger] insert_by(le, x, s)[i],
            insert_by(le, x, s)[i + 1],
        ) by {
            if i == 0 {
                assert(insert_by(le, x, s)[0] == s[0]);
                assert(insert_by(le, x, s)[1] == t[0]);
            } else {
                assert(insert_by(le, x, s)[i] == t[i - 1]);
                assert(insert_by(le, x, s)[i + 1] == t[i]);
            }
        }
    }
}

/// The canonical sort of any sequence is ordered.
pub proof fn lemma_sort_by_rel_ordered<T>(le: spec_fn(T, T) -> bool, s: Seq<T>)
    requires
        total_preorder(le),
    ensures
        ordered_by(le, sort_by_rel(le, s)),
        sort_by_rel(le, s).len() == s.len(),
    decreases s.len(),
{
    if s.len() > 0 {
        lemma_sort_by_rel_ordered(le, s.drop_first());
        lemma_insert_by_ordered(le, s[0], sort_by_rel(le, s.drop_first()));
    }
}

/// When the first `j` elements all come before `x`, inserting `x` only
/// touches the tail from `j` on.
pub proof fn lemma_insert_by_prefix<T>(le: spec_fn(T, T) -> bool, x: T, s: Seq<T>, j: int)
    requires
        0 <= j <= s.len(),
        forall|k: int| 0 <= k < j ==> !le(x, #[trigger] s[k]),
    ensures
        insert_by(le, x, s) =~= s.take(j) + insert_by(le, x, s.skip(j)),
    decreases j,
{
    if j == 0 {
        assert(s.skip(0) =~= s);
        assert(insert_by(le, x, s) =~= s.take(0) + insert_by(le, x, s));
    } else {
        assert(s.len() > 0 && !le(x, s[0]));
        lemma_insert_by_prefix(le, x, s.drop_first(), j - 1);
        assert(s.drop_first().take(j - 1) =~= s.take(j).drop_first());
        assert(s.drop_first().skip(j - 1) =~= s.skip(j));
        assert(insert_by(le, x, s) =~= seq![s[0]] + insert_by(le, x, s.drop_first()));
        assert(seq![s[0]] + (s.drop_first().take(j - 1) + insert_by(le, x, s.skip(j))) =~= s.take(j)
            + insert_by(le, x, s.skip(j)));
    }
}

} // verus!
