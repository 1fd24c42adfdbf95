//! What holds of edits as a whole: which of them go together, how long the
//! outcome is, and what they leave alone.

use crate::edits::{
    edited, in_order, lemma_in_order_within, lemma_placed_at, placed, precedes, spliced, within,
    EditView,
};
use vstd::prelude::*;

verus! {

/// Two edits touch the same items, or one inserts inside what the other replaces.
pub open spec fn conflict<V>(a: EditView<V>, b: EditView<V>) -> bool {
    a.start < b.end && b.start < a.end
}

pub open spec fn conflicts_with_some<V>(edits: Seq<EditView<V>>, e: EditView<V>) -> bool {
    exists|i: int| 0 <= i < edits.len() && conflict(#[trigger] edits[i], e)
}

pub open spec fn some_conflict<V>(edits: Seq<EditView<V>>) -> bool {
    exists|i: int, j: int|
        0 <= i < j < edits.len() && conflict(#[trigger] edits[i], #[trigger] edits[j])
}

/// Where an edit goes among the edits before it.
proof fn lemma_place_exists<V>(sorted: Seq<EditView<V>>, e: EditView<V>) -> (k: int)
    ensures
        0 <= k <= sorted.len(),
        placed(sorted, e) == sorted.insert(k, e),
        forall|j: int| k <= j < sorted.len() ==> precedes(e, #[trigger] sorted[j]),
        k > 0 ==> !precedes(e, sorted[k - 1]),
    decreases sorted.len(),
{
    if sorted.len() > 0 && precedes(e, sorted.last()) {
        let k = lemma_place_exists(sorted.drop_last(), e);
        assert forall|j: int| k <= j < sorted.len() implies precedes(e, #[trigger] sorted[j]) by {
            if j < sorted.len() - 1 {
                assert(sorted.drop_last()[j] == sorted[j]);
            }
        }
        lemma_placed_at(sorted, e, k);
        k
    } else {
        let k = sorted.len() as int;
        lemma_placed_at(sorted, e, k);
        k
    }
}

proof fn lemma_same_members<V>(edits: Seq<EditView<V>>, e: EditView<V>)
    ensures
        in_order(edits).len() == edits.len(),
        conflicts_with_some(in_order(edits), e) == conflicts_with_some(edits, e),
    decreases edits.len(),
{
    if edits.len() > 0 {
        let most = edits.drop_last();
        let last = edits.last();
        let sorted = in_order(most);
        lemma_same_members(most, e);
        let k = lemma_place_exists(sorted, last);
        let out = sorted.insert(k, last);
        if conflicts_with_some(edits, e) {
            let i = choose|i: int| 0 <= i < edits.len() && conflict(#[trigger] edits[i], e);
            if i < most.len() {
                assert(most[i] == edits[i]);
                let s = choose|s: int| 0 <= s < sorted.len() && conflict(#[trigger] sorted[s], e);
                if s < k {
                    assert(out[s] == sorted[s]);
                } else {
                    assert(out[s + 1] == sorted[s]);
                }
            } else {
                assert(out[k] == last);
            }
        }
        if conflicts_with_some(out, e) {
            let s = choose|s: int| 0 <= s < out.len() && conflict(#[trigger] out[s], e);
            if s == k {
                assert(edits[edits.len() - 1] == last);
            } else {
                if s < k {
                    assert(out[s] == sorted[s]);
                } else {
                    assert(out[s] == sorted[s - 1]);
                }
                assert(conflicts_with_some(sorted, e));
                let i = choose|i: int| 0 <= i < most.len() && conflict(#[trigger] most[i], e);
                assert(edits[i] == most[i]);
            }
        }
    }
}

proof fn lemma_insert_conflicts<V>(s: Seq<EditView<V>>, k: int, e: EditView<V>)
    requires
        0 <= k <= s.len(),
    ensures
        some_conflict(s.insert(k, e)) == (some_conflict(s) || conflicts_with_some(s, e)),
{
    let out = s.insert(k, e);
    if some_conflict(s) {
        let (i, j) = choose|i: int, j: int|
            0 <= i < j < s.len() && conflict(#[trigger] s[i], #[trigger] s[j]);
        let a: int = if i < k {
            i
        } else {
            i + 1
        };
        let b: int = if j < k {
            j
        } else {
            j + 1
        };
        assert(out[a] == s[i] && out[b] == s[j]);
    }
    if conflicts_with_some(s, e) {
        let i = choose|i: int| 0 <= i < s.len() && conflict(#[trigger] s[i], e);
        assert(out[k] == e);
        if i < k {
            assert(out[i] == s[i]);
        } else {
            assert(out[i + 1] == s[i]);
            assert(conflict(out[k], out[i + 1]));
        }
    }
    if some_conflict(out) {
        let (a, b) = choose|a: int, b: int|
            0 <= a < b < out.len() && conflict(#[trigger] out[a], #[trigger] out[b]);
        if a == k {
            assert(out[b] == s[b - 1]);
        } else if b == k {
            assert(out[a] == s[a]);
        } else {
            let i: int = if a < k {
                a
            } else {
                a - 1
            };
            let j: int = if b < k {
                b
            } else {
                b - 1
            };
            assert(out[a] == s[i] && out[b] == s[j]);
        }
    }
}

proof fn lemma_order_keeps_conflicts<V>(edits: Seq<EditView<V>>)
    ensures
        some_conflict(in_order(edits)) == some_conflict(edits),
    decreases edits.len(),
{
    if edits.len() > 0 {
        let most = edits.drop_last();
        let last = edits.last();
        let sorted = in_order(most);
        lemma_order_keeps_conflicts(most);
        lemma_same_members(most, last);
        let k = lemma_place_exists(sorted, last);
        lemma_insert_conflicts(sorted, k, last);
        lemma_insert_conflicts(most, most.len() as int, last);
        assert(most.insert(most.len() as int, last) =~= edits);
    }
}

/// The order in which edits apply never puts one before an edit that precedes it.
pub open spec fn ordered<V>(s: Seq<EditView<V>>) -> bool {
    forall|i: int, j: int|
        0 <= i < j < s.len() ==> !precedes(#[trigger] s[j], #[trigger] s[i])
}

/// Sorted edits are in order.
pub proof fn lemma_in_order_ordered<V>(edits: Seq<EditView<V>>)
    ensures
        ordered(in_order(edits)),
    decreases edits.len(),
{
    if edits.len() > 0 {
        let most = edits.drop_last();
        let last = edits.last();
        let sorted = in_order(most);
        lemma_in_order_ordered(most);
        let k = lemma_place_exists(sorted, last);
        let out = sorted.insert(k, last);
        assert forall|i: int, j: int| 0 <= i < j < out.len() implies !precedes(
            #[trigger] out[j],
            #[trigger] out[i],
        ) by {
            let a: int = if i < k {
                i
            } else {
                i - 1
            };
            let b: int = if j < k {
                j
            } else {
                j - 1
            };
            if i == k {
                assert(out[j] == sorted[b]);
            } else if j == k {
                assert(out[i] == sorted[a]);
                if a < k - 1 {
                    assert(!precedes(sorted[k - 1], sorted[a]));
                }
            } else {
                assert(out[i] == sorted[a] && out[j] == sorted[b]);
            }
        }
    }
}

/// Sorting edits neither loses nor adds one.
pub proof fn lemma_in_order_permutes<V>(edits: Seq<EditView<V>>)
    ensures
        in_order(edits).to_multiset() == edits.to_multiset(),
    decreases edits.len(),
{
    broadcast use vstd::seq_lib::group_to_multiset_ensures;

    if edits.len() > 0 {
        let most = edits.drop_last();
        let last = edits.last();
        lemma_in_order_permutes(most);
        let k = lemma_place_exists(in_order(most), last);
        assert(most.push(last) =~= edits);
        assert(in_order(edits).to_multiset() =~= edits.to_multiset());
    }
}

proof fn lemma_spliced_some<V>(items: Seq<V>, sorted: Seq<EditView<V>>, cursor: int)
    requires
        ordered(sorted),
        within(sorted, items.len() as int),
        0 <= cursor <= items.len(),
    ensures
        spliced(items, sorted, cursor) is Some <==> (!some_conflict(sorted) && forall|i: int|
            0 <= i < sorted.len() ==> (#[trigger] sorted[i]).start >= cursor),
    decreases sorted.len(),
{
    if sorted.len() > 0 {
        let first = sorted[0];
        let rest = sorted.drop_first();
        assert forall|i: int, j: int| 0 <= i < j < rest.len() implies !precedes(
            #[trigger] rest[j],
            #[trigger] rest[i],
        ) by {
            assert(rest[i] == sorted[i + 1] && rest[j] == sorted[j + 1]);
        }
        assert forall|i: int| 0 <= i < rest.len() implies 0 <= (#[trigger] rest[i]).start
            <= rest[i].end <= items.len() by {
            assert(rest[i] == sorted[i + 1]);
        }
        if first.start >= cursor {
            lemma_spliced_some(items, rest, first.end);
            if spliced(items, sorted, cursor) is Some {
                if some_conflict(sorted) {
                    let (i, j) = choose|i: int, j: int|
                        0 <= i < j < sorted.len() && conflict(
                            #[trigger] sorted[i],
                            #[trigger] sorted[j],
                        );
                    assert(sorted[j] == rest[j - 1]);
                    if i > 0 {
                        assert(sorted[i] == rest[i - 1]);
                    }
                    assert(false);
                }
                assert forall|i: int| 0 <= i < sorted.len() implies (#[trigger] sorted[i]).start
                    >= cursor by {
                    if i > 0 {
                        assert(sorted[i] == rest[i - 1]);
                    }
                }
            } else {
                if some_conflict(rest) {
                    let (i, j) = choose|i: int, j: int|
                        0 <= i < j < rest.len() && conflict(
                            #[trigger] rest[i],
                            #[trigger] rest[j],
                        );
                    assert(rest[i] == sorted[i + 1] && rest[j] == sorted[j + 1]);
                    assert(some_conflict(sorted));
                } else {
                    let i = choose|i: int|
                        0 <= i < rest.len() && (#[trigger] rest[i]).start < first.end;
                    assert(rest[i] == sorted[i + 1]);
                    assert(!precedes(sorted[i + 1], sorted[0]));
                    assert(conflict(sorted[0], sorted[i + 1]));
                }
            }
        }
    }
}

/// Edits can be made together exactly where no two of them conflict.
pub proof fn lemma_edited_unless_conflict<V>(items: Seq<V>, edits: Seq<EditView<V>>)
    requires
        within(edits, items.len() as int),
    ensures
        edited(items, edits) is Some <==> !some_conflict(edits),
{
    let sorted = in_order(edits);
    lemma_in_order_within(edits, items.len() as int);
    lemma_in_order_ordered(edits);
    lemma_order_keeps_conflicts(edits);
    lemma_spliced_some(items, sorted, 0);
    assert forall|i: int| 0 <= i < sorted.len() implies (#[trigger] sorted[i]).start >= 0 by {}
}

/// How many items the edits put in, less those they take out.
pub open spec fn growth<V>(edits: Seq<EditView<V>>) -> int
    decreases edits.len(),
{
    if edits.len() == 0 {
        0
    } else {
        growth(edits.drop_last()) + edits.last().replacement.len() - (edits.last().end
            - edits.last().start)
    }
}

proof fn lemma_growth_first<V>(edits: Seq<EditView<V>>)
    requires
        edits.len() > 0,
    ensures
        growth(edits) == edits[0].replacement.len() - (edits[0].end - edits[0].start) + growth(
            edits.drop_first(),
        ),
    decreases edits.len(),
{
    if edits.len() > 1 {
        lemma_growth_first(edits.drop_last());
        assert(edits.drop_last().drop_first() =~= edits.drop_first().drop_last());
    } else {
        assert(edits.drop_last() =~= seq![]);
        assert(edits.drop_first() =~= seq![]);
        assert(growth(edits.drop_last()) == 0);
    }
}

proof fn lemma_growth_insert<V>(s: Seq<EditView<V>>, k: int, e: EditView<V>)
    requires
        0 <= k <= s.len(),
    ensures
        growth(s.insert(k, e)) == growth(s) + e.replacement.len() - (e.end - e.start),
    decreases s.len(),
{
    let out = s.insert(k, e);
    if k < s.len() {
        lemma_growth_insert(s.drop_last(), k, e);
        assert(out.drop_last() =~= s.drop_last().insert(k, e));
        assert(out.last() == s.last());
    } else {
        assert(out.drop_last() =~= s);
    }
}

proof fn lemma_growth_in_order<V>(edits: Seq<EditView<V>>)
    ensures
        growth(in_order(edits)) == growth(edits),
    decreases edits.len(),
{
    if edits.len() > 0 {
        lemma_growth_in_order(edits.drop_last());
        let k = lemma_place_exists(in_order(edits.drop_last()), edits.last());
        lemma_growth_insert(in_order(edits.drop_last()), k, edits.last());
    }
}

proof fn lemma_spliced_len<V>(items: Seq<V>, sorted: Seq<EditView<V>>, cursor: int)
    requires
        within(sorted, items.len() as int),
        0 <= cursor <= items.len(),
        spliced(items, sorted, cursor) is Some,
    ensures
        spliced(items, sorted, cursor)->Some_0.len() == items.len() - cursor + growth(sorted),
    decreases sorted.len(),
{
    if sorted.len() > 0 {
        let rest = sorted.drop_first();
        assert forall|i: int| 0 <= i < rest.len() implies 0 <= (#[trigger] rest[i]).start
            <= rest[i].end <= items.len() by {
            assert(rest[i] == sorted[i + 1]);
        }
        lemma_spliced_len(items, rest, sorted[0].end);
        lemma_growth_first(sorted);
    }
}

/// The outcome is longer by what the edits put in, and shorter by what they
/// take out.
pub proof fn lemma_edited_len<V>(items: Seq<V>, edits: Seq<EditView<V>>)
    requires
        within(edits, items.len() as int),
        edited(items, edits) is Some,
    ensures
        edited(items, edits)->Some_0.len() == items.len() + growth(edits),
{
    lemma_in_order_within(edits, items.len() as int);
    lemma_spliced_len(items, in_order(edits), 0);
    lemma_growth_in_order(edits);
}

proof fn lemma_spliced_front<V>(items: Seq<V>, sorted: Seq<EditView<V>>, p: int)
    requires
        within(sorted, items.len() as int),
        0 <= p <= items.len(),
        forall|i: int| 0 <= i < sorted.len() ==> p <= (#[trigger] sorted[i]).start,
        spliced(items, sorted, 0) is Some,
    ensures
        spliced(items, sorted, 0)->Some_0.len() >= p,
        spliced(items, sorted, 0)->Some_0.take(p) == items.take(p),
{
    let out = spliced(items, sorted, 0)->Some_0;
    if sorted.len() == 0 {
        assert(out =~= items);
    } else {
        let e = sorted[0];
        assert(p <= e.start);
        assert(out.take(p) =~= items.take(p));
    }
}

proof fn lemma_spliced_back<V>(items: Seq<V>, sorted: Seq<EditView<V>>, cursor: int, q: int)
    requires
        within(sorted, items.len() as int),
        0 <= cursor <= q <= items.len(),
        forall|i: int| 0 <= i < sorted.len() ==> (#[trigger] sorted[i]).end <= q,
        spliced(items, sorted, cursor) is Some,
    ensures
        spliced(items, sorted, cursor)->Some_0.len() >= items.len() - q,
        spliced(items, sorted, cursor)->Some_0.skip(
            spliced(items, sorted, cursor)->Some_0.len() - (items.len() - q),
        ) == items.skip(q),
    decreases sorted.len(),
{
    let out = spliced(items, sorted, cursor)->Some_0;
    let tail = items.len() - q;
    if sorted.len() == 0 {
        assert(out.skip(out.len() - tail) =~= items.skip(q));
    } else {
        let rest = sorted.drop_first();
        assert forall|i: int| 0 <= i < rest.len() implies 0 <= (#[trigger] rest[i]).start
            <= rest[i].end <= items.len() && rest[i].end <= q by {
            assert(rest[i] == sorted[i + 1]);
        }
        let e = sorted[0];
        lemma_spliced_back(items, rest, e.end, q);
        let r = spliced(items, rest, e.end)->Some_0;
        assert(out.skip(out.len() - tail) =~= r.skip(r.len() - tail));
    }
}

proof fn lemma_in_order_bounds<V>(edits: Seq<EditView<V>>, p: int, q: int)
    requires
        forall|i: int|
            0 <= i < edits.len() ==> p <= (#[trigger] edits[i]).start && edits[i].end <= q,
    ensures
        forall|i: int|
            0 <= i < in_order(edits).len() ==> p <= (#[trigger] in_order(edits)[i]).start
                && in_order(edits)[i].end <= q,
    decreases edits.len(),
{
    if edits.len() > 0 {
        let most = edits.drop_last();
        assert forall|i: int| 0 <= i < most.len() implies p <= (#[trigger] most[i]).start
            && most[i].end <= q by {
            assert(most[i] == edits[i]);
        }
        lemma_in_order_bounds(most, p, q);
        let sorted = in_order(most);
        let k = lemma_place_exists(sorted, edits.last());
        let out = sorted.insert(k, edits.last());
        assert forall|i: int| 0 <= i < out.len() implies p <= (#[trigger] out[i]).start
            && out[i].end <= q by {
            if i < k {
                assert(out[i] == sorted[i]);
            } else if i > k {
                assert(out[i] == sorted[i - 1]);
            } else {
                assert(edits[edits.len() - 1] == out[i]);
            }
        }
    }
}

/// Edits that lie between two positions leave what is before the first and
/// behind the second as it was.
pub proof fn lemma_edited_frame<V>(items: Seq<V>, edits: Seq<EditView<V>>, p: int, q: int)
    requires
        within(edits, items.len() as int),
        0 <= p <= q <= items.len(),
        forall|i: int|
            0 <= i < edits.len() ==> p <= (#[trigger] edits[i]).start && edits[i].end <= q,
        edited(items, edits) is Some,
    ensures
        ({
            let out = edited(items, edits)->Some_0;
            &&& out.len() >= p
            &&& out.take(p) == items.take(p)
            &&& out.len() >= items.len() - q
            &&& out.skip(out.len() - (items.len() - q)) == items.skip(q)
        }),
{
    lemma_in_order_within(edits, items.len() as int);
    lemma_in_order_bounds(edits, p, q);
    lemma_spliced_front(items, in_order(edits), p);
    lemma_spliced_back(items, in_order(edits), 0, q);
}

/// No two edits that differ have the same order.
pub open spec fn told_apart<V>(edits: Seq<EditView<V>>) -> bool {
    forall|a: EditView<V>, b: EditView<V>|
        #![trigger edits.contains(a), edits.contains(b)]
        edits.contains(a) && edits.contains(b) && a.order == b.order ==> a == b
}

proof fn lemma_one_order<V>(s: Seq<EditView<V>>, t: Seq<EditView<V>>)
    requires
        ordered(s),
        ordered(t),
        told_apart(s),
        s.to_multiset() == t.to_multiset(),
    ensures
        s == t,
    decreases s.len(),
{
    broadcast use vstd::seq_lib::group_to_multiset_ensures;

    assert(s.to_multiset().len() == s.len() && t.to_multiset().len() == t.len());
    if s.len() == 0 {
        assert(s =~= t);
    } else {
        let a = s[0];
        let b = t[0];
        assert(s.contains(a) && t.contains(b));
        assert(s.to_multiset().count(a) > 0 && t.to_multiset().count(b) > 0);
        assert(s.contains(b) && t.contains(a));
        let k = choose|k: int| 0 <= k < s.len() && s[k] == b;
        let m = choose|m: int| 0 <= m < t.len() && t[m] == a;
        if a != b {
            assert(!precedes(s[k], s[0]));
            assert(!precedes(t[m], t[0]));
            assert(a.order != b.order);
            assert(false);
        }
        let s1 = s.remove(0);
        let t1 = t.remove(0);
        assert(s1.to_multiset() =~= t1.to_multiset());
        assert(ordered(s1)) by {
            assert forall|i: int, j: int| 0 <= i < j < s1.len() implies !precedes(
                #[trigger] s1[j],
                #[trigger] s1[i],
            ) by {
                assert(s1[i] == s[i + 1] && s1[j] == s[j + 1]);
            }
        }
        assert(ordered(t1)) by {
            assert forall|i: int, j: int| 0 <= i < j < t1.len() implies !precedes(
                #[trigger] t1[j],
                #[trigger] t1[i],
            ) by {
                assert(t1[i] == t[i + 1] && t1[j] == t[j + 1]);
            }
        }
        assert(told_apart(s1)) by {
            assert forall|x: EditView<V>, y: EditView<V>|
                #![trigger s1.contains(x), s1.contains(y)]
                s1.contains(x) && s1.contains(y) && x.order == y.order implies x == y by {
                let i = choose|i: int| 0 <= i < s1.len() && s1[i] == x;
                let j = choose|j: int| 0 <= j < s1.len() && s1[j] == y;
                assert(s[i + 1] == x && s[j + 1] == y);
                assert(s.contains(x) && s.contains(y));
            }
        }
        lemma_one_order(s1, t1);
        assert(s =~= seq![a] + s1);
        assert(t =~= seq![b] + t1);
    }
}

/// Edits that are told apart by their orders apply in one order, however they are
/// listed.
pub proof fn lemma_listing_does_not_matter<V>(edits: Seq<EditView<V>>, listed: Seq<EditView<V>>)
    requires
        edits.to_multiset() == listed.to_multiset(),
        told_apart(edits),
    ensures
        in_order(listed) == in_order(edits),
{
    broadcast use vstd::seq_lib::group_to_multiset_ensures;

    lemma_in_order_ordered(edits);
    lemma_in_order_ordered(listed);
    lemma_in_order_permutes(edits);
    lemma_in_order_permutes(listed);
    let sorted = in_order(edits);
    assert forall|a: EditView<V>, b: EditView<V>|
        #![trigger sorted.contains(a), sorted.contains(b)]
        sorted.contains(a) && sorted.contains(b) && a.order == b.order implies a == b by {
        assert(sorted.to_multiset().count(a) > 0 && sorted.to_multiset().count(b) > 0);
        assert(edits.contains(a) && edits.contains(b));
    }
    lemma_one_order(sorted, in_order(listed));
}

/// What becomes of the items of a sequence, one by one, does not depend on how
/// they are listed, but for its own listing.
pub proof fn lemma_map_permutes<A, B>(a: Seq<A>, b: Seq<A>, f: spec_fn(A) -> B)
    requires
        a.to_multiset() == b.to_multiset(),
    ensures
        a.map_values(f).to_multiset() == b.map_values(f).to_multiset(),
    decreases a.len(),
{
    broadcast use vstd::seq_lib::group_to_multiset_ensures;

    assert(a.to_multiset().len() == a.len() && b.to_multiset().len() == b.len());
    if a.len() == 0 {
        assert(a =~= b);
    } else {
        let x = a[0];
        assert(a.contains(x));
        assert(a.to_multiset().count(x) > 0);
        assert(b.contains(x));
        let k = choose|k: int| 0 <= k < b.len() && b[k] == x;
        assert(a.remove(0).to_multiset() =~= b.remove(k).to_multiset());
        lemma_map_permutes(a.remove(0), b.remove(k), f);
        let fa = a.map_values(f);
        let fb = b.map_values(f);
        assert(fa.remove(0) =~= a.remove(0).map_values(f));
        assert(fb.remove(k) =~= b.remove(k).map_values(f));
        assert(fa[0] == f(x) && fb[k] == f(x));
        assert(fa.contains(fa[0]) && fb.contains(fb[k]));
        assert(fa.to_multiset().count(f(x)) > 0 && fb.to_multiset().count(f(x)) > 0);
        assert(fa.to_multiset() =~= fa.remove(0).to_multiset().insert(f(x)));
        assert(fb.to_multiset() =~= fb.remove(k).to_multiset().insert(f(x)));
    }
}

/// One edit puts its items in the place of those between its ends, and leaves all else.
pub proof fn lemma_one_edit<V>(items: Seq<V>, e: EditView<V>)
    requires
        0 <= e.start <= e.end <= items.len(),
    ensures
        edited(items, seq![e]) == Some(
            items.take(e.start) + e.replacement + items.skip(e.end),
        ),
{
    let edits = seq![e];
    reveal_with_fuel(in_order, 2);
    reveal_with_fuel(placed, 2);
    reveal_with_fuel(spliced, 3);
    assert(edits.drop_last() =~= seq![]);
    assert(in_order(edits) =~= edits);
    assert(edits.drop_first() =~= seq![]);
    assert(items.subrange(0, e.start) =~= items.take(e.start));
}

proof fn lemma_spliced_last<V>(items: Seq<V>, sorted: Seq<EditView<V>>, e: EditView<V>, cursor: int)
    requires
        within(sorted, items.len() as int),
        0 <= cursor <= e.start <= e.end <= items.len(),
        forall|i: int| 0 <= i < sorted.len() ==> (#[trigger] sorted[i]).end <= e.start,
        spliced(items, sorted, cursor) is Some,
    ensures
        ({
            let out = spliced(items, sorted, cursor)->Some_0;
            let p = out.len() - (items.len() - e.start);
            &&& 0 <= p
            &&& spliced(items, sorted.push(e), cursor) == Some(
                out.take(p) + e.replacement + out.skip(p + (e.end - e.start)),
            )
        }),
    decreases sorted.len(),
{
    let more = sorted.push(e);
    let out = spliced(items, sorted, cursor)->Some_0;
    let p = out.len() - (items.len() - e.start);
    reveal_with_fuel(spliced, 2);
    if sorted.len() == 0 {
        assert(more[0] == e);
        assert(more.drop_first() =~= seq![]);
        assert(spliced(items, more, cursor)->Some_0 =~= out.take(p) + e.replacement + out.skip(
            p + (e.end - e.start),
        ));
    } else {
        let first = sorted[0];
        let rest = sorted.drop_first();
        assert(more[0] == first);
        assert(more.drop_first() =~= rest.push(e));
        assert forall|i: int| 0 <= i < rest.len() implies (#[trigger] rest[i]).end <= e.start by {
            assert(rest[i] == sorted[i + 1]);
        }
        assert forall|i: int| 0 <= i < rest.len() implies 0 <= (#[trigger] rest[i]).start
            <= rest[i].end <= items.len() by {
            assert(rest[i] == sorted[i + 1]);
        }
        lemma_spliced_last(items, rest, e, first.end);
        let tail = spliced(items, rest, first.end)->Some_0;
        let head = items.subrange(cursor, first.start) + first.replacement;
        let q = tail.len() - (items.len() - e.start);
        assert(out =~= head + tail);
        assert(p == head.len() + q);
        assert(spliced(items, more, cursor)->Some_0 =~= head + (tail.take(q) + e.replacement
            + tail.skip(q + (e.end - e.start))));
        assert(spliced(items, more, cursor)->Some_0 =~= out.take(p) + e.replacement + out.skip(
            p + (e.end - e.start),
        ));
    }
}

/// An edit behind all others puts its items in the place of those between its ends,
/// wherever the others have moved them, and leaves all else as the others left it.
pub proof fn lemma_edit_behind_others<V>(items: Seq<V>, edits: Seq<EditView<V>>, e: EditView<V>)
    requires
        within(edits, items.len() as int),
        0 <= e.start <= e.end <= items.len(),
        forall|i: int|
            0 <= i < edits.len() ==> (#[trigger] edits[i]).end <= e.start && edits[i].order
                <= e.order,
        edited(items, edits) is Some,
    ensures
        ({
            let out = edited(items, edits)->Some_0;
            let p = out.len() - (items.len() - e.start);
            &&& 0 <= p
            &&& edited(items, edits.push(e)) == Some(
                out.take(p) + e.replacement + out.skip(p + (e.end - e.start)),
            )
        }),
{
    broadcast use vstd::seq_lib::group_to_multiset_ensures;

    let sorted = in_order(edits);
    lemma_in_order_within(edits, items.len() as int);
    lemma_in_order_permutes(edits);
    assert forall|i: int| 0 <= i < sorted.len() implies (#[trigger] sorted[i]).end <= e.start
        && sorted[i].order <= e.order by {
        assert(sorted.to_multiset().count(sorted[i]) > 0);
        assert(edits.to_multiset().count(sorted[i]) > 0);
        assert(edits.contains(sorted[i]));
        let k = choose|k: int| 0 <= k < edits.len() && edits[k] == sorted[i];
        assert(edits[k].end <= e.start);
    }
    let more = edits.push(e);
    assert(more.drop_last() =~= edits);
    if sorted.len() > 0 {
        let last = sorted[sorted.len() - 1];
        assert(last.start <= last.end <= e.start);
        assert(!precedes(e, sorted.last()));
    }
    assert(in_order(more) == sorted.push(e));
    lemma_spliced_last(items, sorted, e, 0);
}

} // verus!
