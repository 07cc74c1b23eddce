//! Rows of any kind of element, and what holds of them.

use vstd::prelude::*;

verus! {

/// The smaller of two numbers.
pub open spec fn smaller(a: int, b: int) -> int {
    if a <= b {
        a
    } else {
        b
    }
}

/// The index of the first element of `s` that is wanted, or the length of `s`.
pub open spec fn first_where<A>(s: Seq<A>, wanted: spec_fn(A) -> bool) -> int
    decreases s.len(),
{
    if s.len() == 0 || wanted(s[0]) {
        0
    } else {
        1 + first_where(s.skip(1), wanted)
    }
}

/// The first element of `s` that is wanted.
pub open spec fn first_such<A>(s: Seq<A>, wanted: spec_fn(A) -> bool) -> Option<A> {
    let k = first_where(s, wanted);
    if k < s.len() {
        Some(s[k])
    } else {
        None
    }
}

/// The first index is the one place that has a wanted element and none before it.
pub proof fn lemma_first_where<A>(s: Seq<A>, wanted: spec_fn(A) -> bool, k: int)
    requires
        0 <= k <= s.len(),
        forall|j: int| 0 <= j < k ==> !wanted(#[trigger] s[j]),
        k < s.len() ==> wanted(s[k]),
    ensures
        first_where(s, wanted) == k,
    decreases k,
{
    if k > 0 {
        assert(!wanted(s[0]));
        assert forall|j: int| 0 <= j < k - 1 implies !wanted(#[trigger] s.skip(1)[j]) by {
            assert(s.skip(1)[j] == s[j + 1]);
        }
        lemma_first_where(s.skip(1), wanted, k - 1);
    }
}

/// No element before the first index is wanted, and the one there is.
pub proof fn lemma_first_where_found<A>(s: Seq<A>, wanted: spec_fn(A) -> bool)
    ensures
        0 <= first_where(s, wanted) <= s.len(),
        forall|j: int| 0 <= j < first_where(s, wanted) ==> !wanted(#[trigger] s[j]),
        first_where(s, wanted) < s.len() ==> wanted(s[first_where(s, wanted)]),
    decreases s.len(),
{
    if s.len() > 0 && !wanted(s[0]) {
        let rest = s.skip(1);
        lemma_first_where_found(rest, wanted);
        assert forall|j: int| 0 <= j < first_where(s, wanted) implies !wanted(#[trigger] s[j]) by {
            if j > 0 {
                assert(rest[j - 1] == s[j]);
            }
        }
    }
}

/// The first element that is wanted is wanted and one of the row; where there is none, no element
/// of the row is wanted.
pub proof fn lemma_first_such_found<A>(s: Seq<A>, wanted: spec_fn(A) -> bool)
    ensures
        match first_such(s, wanted) {
            Some(x) => wanted(x) && s.contains(x),
            None => forall|j: int| 0 <= j < s.len() ==> !wanted(#[trigger] s[j]),
        },
{
    lemma_first_where_found(s, wanted);
}

/// A further element counts only if none before it is wanted.
pub proof fn lemma_first_where_push<A>(s: Seq<A>, x: A, wanted: spec_fn(A) -> bool)
    ensures
        first_where(s.push(x), wanted) == if first_where(s, wanted) < s.len() || wanted(x) {
            first_where(s, wanted)
        } else {
            s.len() as int + 1
        },
        first_such(s.push(x), wanted) == if first_such(s, wanted) is Some {
            first_such(s, wanted)
        } else if wanted(x) {
            Some(x)
        } else {
            None
        },
{
    let k = first_where(s, wanted);
    let all = s.push(x);
    lemma_first_where_found(s, wanted);
    assert forall|j: int| 0 <= j < k implies !wanted(#[trigger] all[j]) by {
        assert(all[j] == s[j]);
    }
    if k < s.len() || wanted(x) {
        lemma_first_where(all, wanted, k);
    } else {
        lemma_first_where(all, wanted, k + 1);
    }
}

/// Two rows with the same elements that stand in the same strict order are the same row.
pub proof fn lemma_ordered_unique<A>(a: Seq<A>, b: Seq<A>, before: spec_fn(A, A) -> bool)
    requires
        forall|x: A, y: A| #[trigger] before(x, y) ==> !before(y, x),
        forall|i: int, j: int|
            0 <= i < j < a.len() ==> before(#[trigger] a[i], #[trigger] a[j]),
        forall|i: int, j: int|
            0 <= i < j < b.len() ==> before(#[trigger] b[i], #[trigger] b[j]),
        forall|i: int| 0 <= i < a.len() ==> b.contains(#[trigger] a[i]),
        forall|i: int| 0 <= i < b.len() ==> a.contains(#[trigger] b[i]),
    ensures
        a == b,
    decreases a.len(),
{
    if a.len() == 0 {
        if b.len() > 0 {
            assert(a.contains(b[0]));
        }
        assert(a == b);
    } else {
        assert(b.contains(a[0]));
        let x = a.last();
        let y = b.last();
        assert(x == y) by {
            assert(b.contains(a[a.len() - 1]));
            assert(a.contains(b[b.len() - 1]));
            let i = choose|i: int| 0 <= i < b.len() && b[i] == x;
            let j = choose|j: int| 0 <= j < a.len() && a[j] == y;
            if i != b.len() - 1 && j != a.len() - 1 {
                assert(before(b[i], b[b.len() - 1]));
                assert(before(a[j], a[a.len() - 1]));
            }
        }
        let c = a.drop_last();
        let d = b.drop_last();
        assert forall|i: int| 0 <= i < c.len() implies d.contains(#[trigger] c[i]) by {
            assert(b.contains(a[i]));
            let k = choose|k: int| 0 <= k < b.len() && b[k] == a[i];
            if k == b.len() - 1 {
                assert(before(a[i], a[a.len() - 1]));
            }
            assert(d[k] == c[i]);
        }
        assert forall|i: int| 0 <= i < d.len() implies c.contains(#[trigger] d[i]) by {
            assert(a.contains(b[i]));
            let k = choose|k: int| 0 <= k < a.len() && a[k] == b[i];
            if k == a.len() - 1 {
                assert(before(b[i], b[b.len() - 1]));
            }
            assert(c[k] == d[i]);
        }
        lemma_ordered_unique(c, d, before);
        assert(a == c.push(x));
        assert(b == d.push(y));
    }
}

/// The smaller of two numbers is one of them and above neither.
pub proof fn the_smaller_is_a_lower_bound(a: int, b: int)
    ensures
        smaller(a, b) == a || smaller(a, b) == b,
        smaller(a, b) <= a,
        smaller(a, b) <= b,
{
}

/// The first wanted element of those that pass is the first element that passes and is wanted.
pub proof fn lemma_first_of_filter<A>(
    s: Seq<A>,
    passes: spec_fn(A) -> bool,
    wanted: spec_fn(A) -> bool,
)
    ensures
        first_such(s.filter(passes), wanted) == first_such(s, |x: A| passes(x) && wanted(x)),
    decreases s.len(),
{
    reveal(Seq::filter);
    let both = |x: A| passes(x) && wanted(x);
    if s.len() > 0 {
        let rest = s.drop_last();
        let x = s.last();
        lemma_first_of_filter(rest, passes, wanted);
        assert(rest.push(x) == s);
        lemma_first_where_push(rest, x, both);
        lemma_first_where_push(rest.filter(passes), x, wanted);
    } else {
        lemma_first_where_found(s, both);
        lemma_first_where_found(s.filter(passes), wanted);
    }
}

/// What passes of a row that was picked by place is picked by the places whose elements pass.
pub proof fn lemma_filter_of_picked<A, B>(
    places: Seq<A>,
    pick: spec_fn(A) -> B,
    passes: spec_fn(B) -> bool,
)
    ensures
        places.map_values(pick).filter(passes) == places.filter(
            |k: A| passes(pick(k)),
        ).map_values(pick),
    decreases places.len(),
{
    reveal(Seq::filter);
    let picked = |k: A| passes(pick(k));
    if places.len() > 0 {
        let rest = places.drop_last();
        lemma_filter_of_picked(rest, pick, passes);
        assert(places.map_values(pick).drop_last() == rest.map_values(pick));
        assert(places.map_values(pick).last() == pick(places.last()));
        assert(rest.filter(picked).push(places.last()).map_values(pick) == rest.filter(
            picked,
        ).map_values(pick).push(pick(places.last())));
    }
    assert(places.map_values(pick).filter(passes) == places.filter(picked).map_values(pick));
}

/// A row keeps its order when it is filtered.
pub proof fn lemma_filter_keeps_order<A>(
    s: Seq<A>,
    before: spec_fn(A, A) -> bool,
    passes: spec_fn(A) -> bool,
)
    requires
        forall|i: int, j: int| 0 <= i < j < s.len() ==> before(#[trigger] s[i], #[trigger] s[j]),
    ensures
        forall|i: int, j: int|
            0 <= i < j < s.filter(passes).len() ==> before(
                #[trigger] s.filter(passes)[i],
                #[trigger] s.filter(passes)[j],
            ),
    decreases s.len(),
{
    reveal(Seq::filter);
    if s.len() > 0 {
        let rest = s.drop_last();
        let kept = s.filter(passes);
        assert forall|i: int, j: int| 0 <= i < j < rest.len() implies before(
            #[trigger] rest[i],
            #[trigger] rest[j],
        ) by {
            assert(before(s[i], s[j]));
        }
        lemma_filter_keeps_order(rest, before, passes);
        assert forall|i: int, j: int| 0 <= i < j < kept.len() implies before(
            #[trigger] kept[i],
            #[trigger] kept[j],
        ) by {
            if j == rest.filter(passes).len() {
                rest.lemma_filter_contains_rev(passes, rest.filter(passes)[i]);
                let k = choose|k: int| 0 <= k < rest.len() && rest[k] == rest.filter(passes)[i];
                assert(before(s[k], s[s.len() - 1]));
            } else {
                assert(kept[i] == rest.filter(passes)[i]);
                assert(kept[j] == rest.filter(passes)[j]);
            }
        }
    }
}

} // verus!
