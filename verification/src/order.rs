//! The order of texts, and sorting by it.

use crate::text::{chars_of, lemma_views_push, views};
use vstd::prelude::*;
use vstd::relations::{sorted_by, total_ordering};

verus! {

/// Texts in the order of their first difference; a text comes before what it
/// is the start of.
pub open spec fn text_le(a: Seq<char>, b: Seq<char>) -> bool
    decreases a.len(),
{
    if a.len() == 0 {
        true
    } else if b.len() == 0 {
        false
    } else if a[0] != b[0] {
        a[0] < b[0]
    } else {
        text_le(a.drop_first(), b.drop_first())
    }
}

pub open spec fn text_order() -> spec_fn(Seq<char>, Seq<char>) -> bool {
    |a: Seq<char>, b: Seq<char>| text_le(a, b)
}

/// The texts in order.
pub open spec fn sorted_texts(s: Seq<Seq<char>>) -> Seq<Seq<char>> {
    s.sort_by(text_order())
}

proof fn lemma_text_le_reflexive(a: Seq<char>)
    ensures
        text_le(a, a),
    decreases a.len(),
{
    if a.len() > 0 {
        lemma_text_le_reflexive(a.drop_first());
    }
}

proof fn lemma_text_le_antisymmetric(a: Seq<char>, b: Seq<char>)
    requires
        text_le(a, b),
        text_le(b, a),
    ensures
        a == b,
    decreases a.len(),
{
    if a.len() == 0 || b.len() == 0 {
        assert(a =~= b);
    } else {
        lemma_text_le_antisymmetric(a.drop_first(), b.drop_first());
        assert(a =~= seq![a[0]] + a.drop_first());
        assert(b =~= seq![b[0]] + b.drop_first());
    }
}

proof fn lemma_text_le_transitive(a: Seq<char>, b: Seq<char>, c: Seq<char>)
    requires
        text_le(a, b),
        text_le(b, c),
    ensures
        text_le(a, c),
    decreases a.len(),
{
    if a.len() > 0 && b.len() > 0 && c.len() > 0 && a[0] == b[0] && b[0] == c[0] {
        lemma_text_le_transitive(a.drop_first(), b.drop_first(), c.drop_first());
    }
}

proof fn lemma_text_le_connected(a: Seq<char>, b: Seq<char>)
    ensures
        text_le(a, b) || text_le(b, a),
    decreases a.len(),
{
    if a.len() > 0 && b.len() > 0 && a[0] == b[0] {
        lemma_text_le_connected(a.drop_first(), b.drop_first());
    }
}

/// Any two texts compare, and only equal ones compare both ways.
pub proof fn lemma_text_order_total()
    ensures
        total_ordering(text_order()),
{
    let r = text_order();
    assert forall|x: Seq<char>| #[trigger] r(x, x) by {
        lemma_text_le_reflexive(x);
    }
    assert forall|x: Seq<char>, y: Seq<char>| #[trigger] r(x, y) && #[trigger] r(y, x) implies x
        == y by {
        lemma_text_le_antisymmetric(x, y);
    }
    assert forall|x: Seq<char>, y: Seq<char>, z: Seq<char>| #[trigger]
        r(x, y) && #[trigger] r(y, z) implies r(x, z) by {
        lemma_text_le_transitive(x, y, z);
    }
    assert forall|x: Seq<char>, y: Seq<char>| #[trigger] r(x, y) || #[trigger] r(y, x) by {
        lemma_text_le_connected(x, y);
    }
}

/// Sorting keeps the texts and puts them in order.
pub proof fn lemma_sorted_texts(s: Seq<Seq<char>>)
    ensures
        sorted_by(sorted_texts(s), text_order()),
        sorted_texts(s).to_multiset() == s.to_multiset(),
        sorted_texts(s).len() == s.len(),
{
    lemma_text_order_total();
    s.lemma_sort_by_ensures(text_order());
    vstd::seq_lib::to_multiset_len(s);
    vstd::seq_lib::to_multiset_len(sorted_texts(s));
}

/// Whether `a` comes before `b` or is the same.
pub fn comes_before(a: &str, b: &str) -> (r: bool)
    ensures
        r == text_le(a@, b@),
{
    let x = chars_of(a);
    let y = chars_of(b);
    let mut i: usize = 0;
    proof {
        assert(x@.skip(0) =~= x@);
        assert(y@.skip(0) =~= y@);
    }
    loop
        invariant
            i <= x@.len(),
            i <= y@.len(),
            text_le(x@, y@) == text_le(x@.skip(i as int), y@.skip(i as int)),
            x@ == a@,
            y@ == b@,
        decreases x@.len() - i,
    {
        if i == x.len() {
            return true;
        }
        if i == y.len() {
            return false;
        }
        proof {
            assert(x@.skip(i as int)[0] == x@[i as int]);
            assert(y@.skip(i as int)[0] == y@[i as int]);
            assert(x@.skip(i as int).drop_first() =~= x@.skip(i + 1));
            assert(y@.skip(i as int).drop_first() =~= y@.skip(i + 1));
        }
        if x[i] != y[i] {
            return x[i] < y[i];
        }
        i = i + 1;
    }
}

/// What can be put in order.
pub trait Ranked: View + Sized {
    spec fn order() -> spec_fn(Self::V, Self::V) -> bool;

    /// Any two values compare, and only equal ones compare both ways.
    proof fn order_is_total()
        ensures
            total_ordering(Self::order()),
    ;

    fn ranks_before(&self, other: &Self) -> (r: bool)
        ensures
            r == Self::order()(self@, other@),
    ;

    fn twin(&self) -> (r: Self)
        ensures
            r@ == self@,
    ;
}

impl Ranked for String {
    open spec fn order() -> spec_fn(Seq<char>, Seq<char>) -> bool {
        text_order()
    }

    proof fn order_is_total() {
        lemma_text_order_total();
    }

    fn ranks_before(&self, other: &String) -> (r: bool) {
        comes_before(self.as_str(), other.as_str())
    }

    fn twin(&self) -> (r: String) {
        self.clone()
    }
}

proof fn lemma_insert_left<V>(a: Seq<V>, b: Seq<V>, item: V, out: Seq<V>)
    requires
        out.to_multiset() == a.to_multiset().add(b.to_multiset()),
    ensures
        out.push(item).to_multiset() == a.push(item).to_multiset().add(b.to_multiset()),
{
    broadcast use vstd::seq_lib::group_to_multiset_ensures;
    broadcast use vstd::multiset::group_multiset_axioms;

    assert(out.push(item).to_multiset() =~= out.to_multiset().insert(item));
    assert(a.push(item).to_multiset() =~= a.to_multiset().insert(item));
    assert(a.to_multiset().add(b.to_multiset()).insert(item) =~= a.to_multiset().insert(item).add(
        b.to_multiset(),
    ));
}

proof fn lemma_insert_right<V>(a: Seq<V>, b: Seq<V>, item: V, out: Seq<V>)
    requires
        out.to_multiset() == a.to_multiset().add(b.to_multiset()),
    ensures
        out.push(item).to_multiset() == a.to_multiset().add(b.push(item).to_multiset()),
{
    broadcast use vstd::seq_lib::group_to_multiset_ensures;
    broadcast use vstd::multiset::group_multiset_axioms;

    assert(out.push(item).to_multiset() =~= out.to_multiset().insert(item));
    assert(b.push(item).to_multiset() =~= b.to_multiset().insert(item));
    assert(a.to_multiset().add(b.to_multiset()).insert(item) =~= a.to_multiset().add(
        b.to_multiset().insert(item),
    ));
}

fn merge<T: Ranked>(a: Vec<T>, b: Vec<T>) -> (r: Vec<T>)
    requires
        sorted_by(views(a@), T::order()),
        sorted_by(views(b@), T::order()),
    ensures
        sorted_by(views(r@), T::order()),
        views(r@).to_multiset() == views(a@).to_multiset().add(views(b@).to_multiset()),
{
    broadcast use lemma_views_push;
    broadcast use vstd::seq_lib::group_to_multiset_ensures;
    broadcast use vstd::multiset::group_multiset_axioms;

    let ghost le = T::order();
    let ghost va = views(a@);
    let ghost vb = views(b@);
    let mut out: Vec<T> = Vec::new();
    let mut i: usize = 0;
    let mut j: usize = 0;
    proof {
        assert(va.take(0) =~= seq![]);
        assert(vb.take(0) =~= seq![]);
        assert(views(out@) =~= seq![]);
        assert(views(out@).to_multiset() =~= va.take(0).to_multiset().add(
            vb.take(0).to_multiset(),
        ));
    }
    while i < a.len() || j < b.len()
        invariant
            i <= a@.len(),
            j <= b@.len(),
            le == T::order(),
            va == views(a@),
            vb == views(b@),
            sorted_by(va, le),
            sorted_by(vb, le),
            sorted_by(views(out@), le),
            views(out@).to_multiset() == va.take(i as int).to_multiset().add(
                vb.take(j as int).to_multiset(),
            ),
            forall|x: int, y: int|
                0 <= x < out@.len() && i <= y < va.len() ==> #[trigger] le(views(out@)[x], va[y]),
            forall|x: int, y: int|
                0 <= x < out@.len() && j <= y < vb.len() ==> #[trigger] le(views(out@)[x], vb[y]),
        decreases (a@.len() - i) + (b@.len() - j),
    {
        let ghost before = views(out@);
        let take_a: bool = if i == a.len() {
            false
        } else if j == b.len() {
            true
        } else {
            a[i].ranks_before(&b[j])
        };
        proof {
            T::order_is_total();
        }
        if take_a {
            let ghost item = va[i as int];
            out.push(a[i].twin());
            proof {
                assert(views(out@) =~= before.push(item));
                assert(va.take(i + 1) =~= va.take(i as int).push(item));
                lemma_insert_left(va.take(i as int), vb.take(j as int), item, before);
                assert forall|x: int, y: int| 0 <= x < y < views(out@).len() implies #[trigger] le(
                    views(out@)[x],
                    views(out@)[y],
                ) by {
                    if y < before.len() {
                        assert(le(before[x], before[y]));
                    } else {
                        assert(le(before[x], va[i as int]));
                    }
                }
                assert forall|x: int, y: int| 0 <= x < out@.len() && i + 1 <= y
                    < va.len() implies #[trigger] le(views(out@)[x], va[y]) by {
                    if x == before.len() {
                        assert(le(va[i as int], va[y]));
                    } else {
                        assert(le(before[x], va[y]));
                    }
                }
                assert forall|x: int, y: int| 0 <= x < out@.len() && j <= y
                    < vb.len() implies #[trigger] le(views(out@)[x], vb[y]) by {
                    if x == before.len() {
                        assert(le(item, vb[j as int]));
                        if y > j {
                            assert(le(vb[j as int], vb[y]));
                        }
                    } else {
                        assert(le(before[x], vb[y]));
                    }
                }
            }
            i = i + 1;
        } else {
            let ghost item = vb[j as int];
            out.push(b[j].twin());
            proof {
                assert(views(out@) =~= before.push(item));
                assert(vb.take(j + 1) =~= vb.take(j as int).push(item));
                lemma_insert_right(va.take(i as int), vb.take(j as int), item, before);
                assert forall|x: int, y: int| 0 <= x < y < views(out@).len() implies #[trigger] le(
                    views(out@)[x],
                    views(out@)[y],
                ) by {
                    if y < before.len() {
                        assert(le(before[x], before[y]));
                    } else {
                        assert(le(before[x], vb[j as int]));
                    }
                }
                assert forall|x: int, y: int| 0 <= x < out@.len() && j + 1 <= y
                    < vb.len() implies #[trigger] le(views(out@)[x], vb[y]) by {
                    if x == before.len() {
                        assert(le(vb[j as int], vb[y]));
                    } else {
                        assert(le(before[x], vb[y]));
                    }
                }
                assert forall|x: int, y: int| 0 <= x < out@.len() && i <= y
                    < va.len() implies #[trigger] le(views(out@)[x], va[y]) by {
                    if x == before.len() {
                        assert(le(item, va[i as int]) || le(va[i as int], item));
                        assert(le(item, va[i as int]));
                        if y > i {
                            assert(le(va[i as int], va[y]));
                        }
                    } else {
                        assert(le(before[x], va[y]));
                    }
                }
            }
            j = j + 1;
        }
    }
    proof {
        assert(va.take(va.len() as int) =~= va);
        assert(vb.take(vb.len() as int) =~= vb);
    }
    out
}

/// Puts values in order.
pub fn sort<T: Ranked>(v: Vec<T>) -> (r: Vec<T>)
    ensures
        views(r@) == views(v@).sort_by(T::order()),
    decreases v@.len(),
{
    let ghost given = views(v@);
    let n: usize = v.len();
    proof {
        T::order_is_total();
        given.lemma_sort_by_ensures(T::order());
    }
    if n <= 1 {
        proof {
            vstd::seq_lib::lemma_sorted_unique(given, given.sort_by(T::order()), T::order());
        }
        return v;
    }
    let mut left = v;
    let right = left.split_off(n / 2);
    let ghost l = views(left@);
    let ghost r0 = views(right@);
    proof {
        assert(l + r0 =~= given);
        vstd::seq_lib::lemma_multiset_commutative(l, r0);
        l.lemma_sort_by_ensures(T::order());
        r0.lemma_sort_by_ensures(T::order());
    }
    let left = sort(left);
    let right = sort(right);
    let out = merge(left, right);
    proof {
        vstd::seq_lib::lemma_sorted_unique(views(out@), given.sort_by(T::order()), T::order());
    }
    out
}

/// Sorts texts.
pub fn sort_texts(v: Vec<String>) -> (r: Vec<String>)
    ensures
        views(r@) == sorted_texts(views(v@)),
{
    sort(v)
}

// ---------------------------------------------------------------------------
// Newest first
// ---------------------------------------------------------------------------
/// A place in a list, with the time of what stands there.
pub struct TimedPlace {
    pub time: u128,
    pub index: usize,
}

impl View for TimedPlace {
    type V = (u128, int);

    open spec fn view(&self) -> (u128, int) {
        (self.time, self.index as int)
    }
}

/// Later times first; at one time the earlier place.
pub open spec fn newer(a: (u128, int), b: (u128, int)) -> bool {
    a.0 > b.0 || (a.0 == b.0 && a.1 <= b.1)
}

impl Ranked for TimedPlace {
    open spec fn order() -> spec_fn((u128, int), (u128, int)) -> bool {
        |a: (u128, int), b: (u128, int)| newer(a, b)
    }

    proof fn order_is_total() {
    }

    fn ranks_before(&self, other: &TimedPlace) -> (r: bool) {
        self.time > other.time || (self.time == other.time && self.index <= other.index)
    }

    fn twin(&self) -> (r: TimedPlace) {
        TimedPlace { time: self.time, index: self.index }
    }
}

/// The places of a list by their times, newest first and otherwise in the order
/// of the list.
pub open spec fn newest_places(times: Seq<u128>) -> Seq<int> {
    let places = Seq::new(times.len(), |i: int| (times[i], i));
    let sorted = places.sort_by(<TimedPlace as Ranked>::order());
    Seq::new(sorted.len(), |i: int| sorted[i].1)
}

/// The items of a list, newest first.
pub open spec fn newest_first<V>(items: Seq<V>, times: Seq<u128>) -> Seq<V> {
    Seq::new(newest_places(times).len(), |i: int| items[newest_places(times)[i]])
}

/// Finds in what order the items of a list stand newest first.
pub fn order_by_time(times: &[u128]) -> (r: Vec<usize>)
    ensures
        r@.len() == times@.len(),
        forall|i: int| 0 <= i < r@.len() ==> (#[trigger] r@[i]) < times@.len(),
        newest_places(times@) == Seq::new(r@.len(), |i: int| r@[i] as int),
{
    let mut places: Vec<TimedPlace> = Vec::new();
    let mut i: usize = 0;
    while i < times.len()
        invariant
            i <= times@.len(),
            places@.len() == i,
            forall|j: int| 0 <= j < i ==> (#[trigger] places@[j])@ == (times@[j], j),
        decreases times@.len() - i,
    {
        places.push(TimedPlace { time: times[i], index: i });
        i = i + 1;
    }
    let ghost given = Seq::new(times@.len(), |i: int| (times@[i], i));
    proof {
        assert(views(places@) =~= given);
        TimedPlace::order_is_total();
        given.lemma_sort_by_ensures(<TimedPlace as Ranked>::order());
    }
    let sorted = sort(places);
    let ghost after = given.sort_by(<TimedPlace as Ranked>::order());
    proof {
        vstd::seq_lib::to_multiset_len(given);
        vstd::seq_lib::to_multiset_len(after);
        assert(views(sorted@).len() == sorted@.len());
    }
    let mut out: Vec<usize> = Vec::new();
    let mut k: usize = 0;
    while k < sorted.len()
        invariant
            k <= sorted@.len(),
            sorted@.len() == times@.len(),
            out@.len() == k,
            views(sorted@) == after,
            given == Seq::new(times@.len(), |i: int| (times@[i], i)),
            forall|x: (u128, int)| !given.contains(x) ==> !(#[trigger] after.contains(x)),
            forall|j: int| 0 <= j < k ==> (#[trigger] out@[j]) == after[j].1 && out@[j] < times@.len(),
        decreases sorted@.len() - k,
    {
        proof {
            assert(after[k as int] == sorted@[k as int]@);
            assert(after.contains(after[k as int]));
            let w = choose|w: int| 0 <= w < given.len() && given[w] == after[k as int];
            assert(given[w].1 == w);
        }
        out.push(sorted[k].index);
        k = k + 1;
    }
    proof {
        assert(newest_places(times@) =~= Seq::new(out@.len(), |i: int| out@[i] as int));
    }
    out
}

/// Sorting by time keeps every place once, puts newer before older, and leaves
/// those of one time in the order they had.
pub proof fn lemma_newest_places(times: Seq<u128>)
    ensures
        newest_places(times).len() == times.len(),
        newest_places(times).no_duplicates(),
        forall|i: int|
            0 <= i < times.len() ==> 0 <= #[trigger] newest_places(times)[i] < times.len(),
        forall|i: int, j: int|
            #![trigger newest_places(times)[i], newest_places(times)[j]]
            0 <= i < j < times.len() ==> newer(
                (times[newest_places(times)[i]], newest_places(times)[i]),
                (times[newest_places(times)[j]], newest_places(times)[j]),
            ),
{
    let le = <TimedPlace as Ranked>::order();
    let given = Seq::new(times.len(), |i: int| (times[i], i));
    let after = given.sort_by(le);
    TimedPlace::order_is_total();
    given.lemma_sort_by_ensures(le);
    vstd::seq_lib::to_multiset_len(given);
    vstd::seq_lib::to_multiset_len(after);
    assert(given.no_duplicates());
    given.lemma_multiset_has_no_duplicates();
    assert(after.to_multiset() =~= given.to_multiset());
    after.lemma_multiset_has_no_duplicates_conv();
    assert forall|i: int| 0 <= i < after.len() implies 0 <= (#[trigger] after[i]).1 < times.len()
        && after[i].0 == times[after[i].1] by {
        assert(after.contains(after[i]));
        let w = choose|w: int| 0 <= w < given.len() && given[w] == after[i];
        assert(given[w].1 == w);
    }
    assert forall|i: int, j: int| 0 <= i < j < after.len() implies newer(
        #[trigger] after[i],
        #[trigger] after[j],
    ) by {
        assert(le(after[i], after[j]));
    }
}

/// Items that stand newest first: a newer one never stands behind an older one, those of
/// one time stay in their order, and every item has exactly one place.
pub proof fn lemma_newest_come_first<V>(items: Seq<V>, times: Seq<u128>, i: int, j: int)
    requires
        items.len() == times.len(),
        0 <= i < items.len(),
        0 <= j < items.len(),
        i != j,
    ensures
        newest_first(items, times).len() == items.len(),
        exists|a: int, b: int|
            #![trigger newest_first(items, times)[a], newest_first(items, times)[b]]
            0 <= a < items.len() && 0 <= b < items.len() && newest_first(items, times)[a] == items[i]
                && newest_first(items, times)[b] == items[j] && (a < b <==> times[i] > times[j] || (
            times[i] == times[j] && i < j)),
{
    let p = newest_places(times);
    lemma_newest_places(times);
    lemma_every_place_is_there(p, times.len() as int);
    let a = choose|a: int| 0 <= a < p.len() && p[a] == i;
    let b = choose|b: int| 0 <= b < p.len() && p[b] == j;
    assert(p.contains(i));
    assert(p.contains(j));
    assert(p[a] == i && p[b] == j);
    assert(newest_first(items, times)[a] == items[i]);
    assert(newest_first(items, times)[b] == items[j]);
    if a < b {
        assert(newer((times[p[a]], p[a]), (times[p[b]], p[b])));
    } else {
        assert(a != b);
        assert(newer((times[p[b]], p[b]), (times[p[a]], p[a])));
    }
}

proof fn lemma_every_place_is_there(p: Seq<int>, n: int)
    requires
        p.no_duplicates(),
        p.len() == n,
        forall|k: int| 0 <= k < n ==> 0 <= #[trigger] p[k] < n,
    ensures
        forall|i: int| 0 <= i < n ==> #[trigger] p.contains(i),
{
    p.unique_seq_to_set();
    vstd::set_lib::lemma_int_range(0, n);
    let all = vstd::set_lib::set_int_range(0, n);
    assert(p.to_set().subset_of(all));
    vstd::set_lib::lemma_subset_equality(p.to_set(), all);
    assert forall|i: int| 0 <= i < n implies #[trigger] p.contains(i) by {
        assert(all.contains(i));
        assert(p.to_set().contains(i));
    }
}

/// The first character in which two texts differ decides which comes first, and a text
/// comes before any that goes on behind it.
pub proof fn lemma_texts_are_ordered(
    front: Seq<char>,
    c: char,
    a: Seq<char>,
    d: char,
    b: Seq<char>,
)
    ensures
        c < d ==> text_le(front + seq![c] + a, front + seq![d] + b),
        c > d ==> !text_le(front + seq![c] + a, front + seq![d] + b),
        text_le(front, front + a),
        a.len() > 0 ==> !text_le(front + a, front),
    decreases front.len(),
{
    let (x, y) = (front + seq![c] + a, front + seq![d] + b);
    if front.len() > 0 {
        let rest = front.drop_first();
        lemma_texts_are_ordered(rest, c, a, d, b);
        assert(x.drop_first() =~= rest + seq![c] + a);
        assert(y.drop_first() =~= rest + seq![d] + b);
        assert((front + a).drop_first() =~= rest + a);
    } else {
        assert(x[0] == c && y[0] == d);
    }
}

} // verus!
