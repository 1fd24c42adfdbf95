//! Values kept under names, in the order of the names.

use crate::order::{comes_before, lemma_text_order_total, text_le, text_order};
use crate::text::same_text;
use vstd::prelude::*;

verus! {

/// The names of a list of named values.
pub open spec fn names_of<V>(s: Seq<(Seq<char>, V)>) -> Seq<Seq<char>> {
    Seq::new(s.len(), |i: int| s[i].0)
}

/// Whether each name comes before the next and differs from it.
pub open spec fn increasing(names: Seq<Seq<char>>) -> bool {
    forall|i: int, j: int|
        0 <= i < j < names.len() ==> text_le(names[i], names[j]) && #[trigger] names[i]
            != #[trigger] names[j]
}

/// The values of a list by name; of two with one name the later counts.
pub open spec fn named<V>(s: Seq<(Seq<char>, V)>) -> Map<Seq<char>, V>
    decreases s.len(),
{
    if s.len() == 0 {
        Map::empty()
    } else {
        named(s.drop_last()).insert(s.last().0, s.last().1)
    }
}

/// The values of a table as a list in the order of their names.
pub open spec fn in_name_order<V>(m: Map<Seq<char>, V>) -> Seq<(Seq<char>, V)> {
    choose|s: Seq<(Seq<char>, V)>| increasing(names_of(s)) && #[trigger] named(s) == m
}

/// Named values as they stand in a table, seen from outside.
pub open spec fn pairs_of<T: View>(s: Seq<(String, T)>) -> Seq<(Seq<char>, T::V)> {
    Seq::new(s.len(), |i: int| (s[i].0@, s[i].1@))
}

spec fn kept_names<T>(s: Seq<(String, T)>) -> Seq<Seq<char>> {
    Seq::new(s.len(), |i: int| s[i].0@)
}

/// Values under names.
#[derive(Debug)]
pub struct NameTable<T> {
    entries: Vec<(String, T)>,
}

impl<T: View> View for NameTable<T> {
    type V = Map<Seq<char>, T::V>;

    closed spec fn view(&self) -> Map<Seq<char>, T::V> {
        named(pairs_of(self.entries@))
    }
}

impl<T> NameTable<T> {
    #[verifier::type_invariant]
    spec fn ordered(self) -> bool {
        increasing(kept_names(self.entries@))
    }
}

proof fn lemma_named_dom<V>(s: Seq<(Seq<char>, V)>, name: Seq<char>)
    ensures
        named(s).dom().contains(name) <==> names_of(s).contains(name),
    decreases s.len(),
{
    if s.len() > 0 {
        let init = s.drop_last();
        lemma_named_dom(init, name);
        if names_of(init).contains(name) {
            let i = choose|i: int| 0 <= i < names_of(init).len() && names_of(init)[i] == name;
            assert(names_of(s)[i] == name);
        }
        if names_of(s).contains(name) {
            let i = choose|i: int| 0 <= i < names_of(s).len() && names_of(s)[i] == name;
            if i < init.len() {
                assert(names_of(init)[i] == name);
            }
        }
        assert(names_of(s)[s.len() - 1] == s.last().0);
    }
}

/// A list whose names differ holds under each name what stands beside it.
proof fn lemma_named_at<V>(s: Seq<(Seq<char>, V)>, i: int)
    requires
        increasing(names_of(s)),
        0 <= i < s.len(),
    ensures
        named(s).dom().contains(s[i].0),
        named(s)[s[i].0] == s[i].1,
    decreases s.len(),
{
    if i < s.len() - 1 {
        let init = s.drop_last();
        assert(increasing(names_of(init))) by {
            assert forall|a: int, b: int| 0 <= a < b < names_of(init).len() implies text_le(
                names_of(init)[a],
                names_of(init)[b],
            ) && #[trigger] names_of(init)[a] != #[trigger] names_of(init)[b] by {
                assert(names_of(s)[a] != names_of(s)[b]);
            }
        }
        lemma_named_at(init, i);
        assert(names_of(s)[i] != names_of(s)[s.len() - 1]);
    }
}

/// There is one list in the order of the names for what a table holds.
pub proof fn lemma_in_name_order<V>(s: Seq<(Seq<char>, V)>)
    requires
        increasing(names_of(s)),
    ensures
        in_name_order(named(s)) == s,
{
    let t = in_name_order(named(s));
    assert(increasing(names_of(t)) && named(t) == named(s));
    lemma_one_order(s, t);
}

/// Whether values under names stand in some order of their names, as those of a table do.
pub open spec fn is_table<V>(m: Map<Seq<char>, V>) -> bool {
    exists|s: Seq<(Seq<char>, V)>| increasing(names_of(s)) && #[trigger] named(s) == m
}

/// The list of a table has every value of the table under its name, and no other; its
/// names increase, so none comes twice.
pub proof fn lemma_name_order_has_all<V>(m: Map<Seq<char>, V>)
    requires
        is_table(m),
    ensures
        ({
            let pairs = in_name_order(m);
            &&& increasing(names_of(pairs))
            &&& forall|name: Seq<char>| #[trigger]
                m.dom().contains(name) ==> exists|i: int|
                    0 <= i < pairs.len() && #[trigger] pairs[i] == (name, m[name])
            &&& forall|i: int|
                0 <= i < pairs.len() ==> m.dom().contains((#[trigger] pairs[i]).0)
                    && m[pairs[i].0] == pairs[i].1
        }),
{
    let pairs = in_name_order(m);
    assert(increasing(names_of(pairs)) && named(pairs) == m);
    assert forall|i: int| 0 <= i < pairs.len() implies m.dom().contains((#[trigger] pairs[i]).0)
        && m[pairs[i].0] == pairs[i].1 by {
        lemma_named_at(pairs, i);
    }
    assert forall|name: Seq<char>| #[trigger] m.dom().contains(name) implies exists|i: int|
        0 <= i < pairs.len() && #[trigger] pairs[i] == (name, m[name]) by {
        lemma_named_dom(pairs, name);
        let i = choose|i: int| 0 <= i < pairs.len() && (#[trigger] pairs[i]).0 == name;
        lemma_named_at(pairs, i);
        assert(pairs[i] == (name, m[name]));
    }
}

proof fn lemma_one_order<V>(s: Seq<(Seq<char>, V)>, t: Seq<(Seq<char>, V)>)
    requires
        increasing(names_of(s)),
        increasing(names_of(t)),
        named(s) == named(t),
    ensures
        s == t,
    decreases s.len(),
{
    if s.len() == 0 {
        if t.len() > 0 {
            lemma_named_dom(t, t.last().0);
            lemma_named_at(t, t.len() - 1);
            assert(!named(s).dom().contains(t.last().0));
        }
        assert(s =~= t);
    } else {
        lemma_named_at(s, s.len() - 1);
        if t.len() == 0 {
            assert(named(t).dom().contains(s.last().0));
            assert(false);
        }
        lemma_named_at(t, t.len() - 1);
        lemma_last_is_greatest(s, t.last().0);
        lemma_last_is_greatest(t, s.last().0);
        lemma_text_order_total();
        assert(text_order()(s.last().0, t.last().0));
        assert(text_order()(t.last().0, s.last().0));
        assert(s.last().0 == t.last().0);
        lemma_init(s);
        lemma_init(t);
        lemma_one_order(s.drop_last(), t.drop_last());
        assert(s =~= s.drop_last().push(s.last()));
        assert(t =~= t.drop_last().push(t.last()));
    }
}

proof fn lemma_last_is_greatest<V>(s: Seq<(Seq<char>, V)>, name: Seq<char>)
    requires
        s.len() > 0,
        increasing(names_of(s)),
        named(s).dom().contains(name),
    ensures
        text_le(name, s.last().0),
{
    lemma_named_dom(s, name);
    let i = choose|i: int| 0 <= i < names_of(s).len() && names_of(s)[i] == name;
    if i < s.len() - 1 {
        assert(names_of(s)[i] != names_of(s)[s.len() - 1]);
    } else {
        lemma_text_order_total();
        assert(text_order()(name, name));
    }
}

proof fn lemma_init<V>(s: Seq<(Seq<char>, V)>)
    requires
        s.len() > 0,
        increasing(names_of(s)),
    ensures
        increasing(names_of(s.drop_last())),
        named(s.drop_last()) == named(s).remove(s.last().0),
{
    let init = s.drop_last();
    assert forall|a: int, b: int| 0 <= a < b < names_of(init).len() implies text_le(
        names_of(init)[a],
        names_of(init)[b],
    ) && #[trigger] names_of(init)[a] != #[trigger] names_of(init)[b] by {
        assert(names_of(s)[a] != names_of(s)[b]);
    }
    lemma_named_dom(init, s.last().0);
    assert(!named(init).dom().contains(s.last().0)) by {
        if names_of(init).contains(s.last().0) {
            let i = choose|i: int| 0 <= i < names_of(init).len() && names_of(init)[i] == s.last().0;
            assert(names_of(s)[i] != names_of(s)[s.len() - 1]);
        }
    }
    assert(named(init) =~= named(s).remove(s.last().0));
}

/// Lists in the order of their names that hold the same under each name.
proof fn lemma_named_eq<V>(s: Seq<(Seq<char>, V)>, m: Map<Seq<char>, V>)
    requires
        increasing(names_of(s)),
        forall|i: int| 0 <= i < s.len() ==> m.dom().contains((#[trigger] s[i]).0) && m[s[i].0]
            == s[i].1,
        forall|k: Seq<char>| #[trigger] m.dom().contains(k) ==> names_of(s).contains(k),
    ensures
        named(s) == m,
{
    assert forall|k: Seq<char>| #[trigger] named(s).dom().contains(k) <==> m.dom().contains(k) by {
        lemma_named_dom(s, k);
        if names_of(s).contains(k) {
            let i = choose|i: int| 0 <= i < names_of(s).len() && names_of(s)[i] == k;
            assert(s[i].0 == k);
        }
    }
    assert forall|k: Seq<char>| #[trigger] named(s).dom().contains(k) implies named(s)[k] == m[k] by {
        lemma_named_dom(s, k);
        let i = choose|i: int| 0 <= i < names_of(s).len() && names_of(s)[i] == k;
        lemma_named_at(s, i);
        assert(s[i].0 == k);
    }
    assert(named(s) =~= m);
}

impl<T: View> NameTable<T> {
    /// The named values in the order of their names.
    pub closed spec fn pairs(&self) -> Seq<(Seq<char>, T::V)> {
        pairs_of(self.entries@)
    }

    pub fn new() -> (r: NameTable<T>)
        ensures
            r@ == Map::<Seq<char>, T::V>::empty(),
    {
        NameTable { entries: Vec::new() }
    }

    /// How many names there are.
    pub fn len(&self) -> (r: usize)
        ensures
            r == in_name_order(self@).len(),
            self.pairs() == in_name_order(self@),
            named(self.pairs()) == self@,
            r == self.pairs().len(),
    {
        proof {
            use_type_invariant(self);
            assert(names_of(pairs_of(self.entries@)) =~= kept_names(self.entries@));
            lemma_in_name_order(pairs_of(self.entries@));
        }
        self.entries.len()
    }

    /// The name at a place in the order.
    pub fn name_at(&self, i: usize) -> (r: &str)
        requires
            i < self.pairs().len(),
        ensures
            r@ == self.pairs()[i as int].0,
    {
        self.entries[i].0.as_str()
    }

    /// The value at a place in the order.
    pub fn value_at(&self, i: usize) -> (r: &T)
        requires
            i < self.pairs().len(),
        ensures
            r@ == self.pairs()[i as int].1,
    {
        &self.entries[i].1
    }

    /// Where the first name stands that does not come before `name`.
    fn place(&self, name: &str) -> (r: usize)
        ensures
            r <= self.entries@.len(),
            forall|i: int| 0 <= i < r ==> !text_le(name@, (#[trigger] self.entries@[i]).0@),
            forall|i: int|
                r <= i < self.entries@.len() ==> text_le(name@, (#[trigger] self.entries@[i]).0@),
    {
        proof {
            use_type_invariant(self);
        }
        let mut i: usize = 0;
        while i < self.entries.len()
            invariant
                i <= self.entries@.len(),
                increasing(kept_names(self.entries@)),
                forall|k: int| 0 <= k < i ==> !text_le(name@, (#[trigger] self.entries@[k]).0@),
            decreases self.entries@.len() - i,
        {
            if comes_before(name, self.entries[i].0.as_str()) {
                proof {
                    assert forall|k: int| i <= k < self.entries@.len() implies text_le(
                        name@,
                        (#[trigger] self.entries@[k]).0@,
                    ) by {
                        if k > i {
                            assert(kept_names(self.entries@)[i as int] != kept_names(
                                self.entries@,
                            )[k]);
                            lemma_text_order_total();
                            assert(text_order()(name@, self.entries@[i as int].0@));
                            assert(text_order()(self.entries@[i as int].0@, self.entries@[k].0@));
                            assert(text_order()(name@, self.entries@[k].0@));
                        }
                    }
                }
                return i;
            }
            i = i + 1;
        }
        i
    }

    /// What stands under a name.
    pub fn get(&self, name: &str) -> (r: Option<&T>)
        ensures
            match r {
                Some(v) => self@.dom().contains(name@) && self@[name@] == v@,
                None => !self@.dom().contains(name@),
            },
    {
        let i = self.place(name);
        let ghost pairs = pairs_of(self.entries@);
        proof {
            use_type_invariant(self);
            assert(names_of(pairs) =~= kept_names(self.entries@));
            lemma_named_dom(pairs, name@);
        }
        if i < self.entries.len() && same_text(self.entries[i].0.as_str(), name) {
            proof {
                lemma_named_at(pairs, i as int);
            }
            Some(&self.entries[i].1)
        } else {
            proof {
                if names_of(pairs).contains(name@) {
                    let k = choose|k: int| 0 <= k < names_of(pairs).len() && names_of(pairs)[k] == name@;
                    lemma_text_order_total();
                    assert(text_order()(name@, name@));
                    assert(self.entries@[k].0@ == name@);
                    assert(k > i);
                    assert(kept_names(self.entries@)[i as int] != kept_names(self.entries@)[k]);
                    assert(text_order()(self.entries@[i as int].0@, name@));
                    assert(text_order()(name@, self.entries@[i as int].0@));
                }
            }
            None
        }
    }

    /// The table with a value under a name, in place of what stood there.
    pub fn with(self, name: String, value: T) -> (r: NameTable<T>)
        ensures
            r@ == self@.insert(name@, value@),
    {
        let i = self.place(name.as_str());
        proof {
            use_type_invariant(&self);
        }
        let ghost before = self.entries@;
        let ghost key = name@;
        let ghost held = value@;
        let ghost pairs = pairs_of(before);
        let mut entries = self.entries;
        proof {
            assert(names_of(pairs) =~= kept_names(before));
            lemma_text_order_total();
        }
        if i < entries.len() && same_text(entries[i].0.as_str(), name.as_str()) {
            entries.set(i, (name, value));
            proof {
                assert(kept_names(entries@) =~= kept_names(before));
                lemma_stored(before, entries@, i as int, key, held);
            }
            NameTable { entries }
        } else {
            entries.insert(i, (name, value));
            proof {
                lemma_placed(before, entries@, i as int, key, held);
            }
            NameTable { entries }
        }
    }
}

impl<T: View> NameTable<T> {
    /// The table without what stood under a name, and what that was.
    pub fn pop(self, name: &str) -> (r: (NameTable<T>, Option<T>))
        ensures
            r.0@ == self@.remove(name@),
            match r.1 {
                Some(v) => self@.dom().contains(name@) && self@[name@] == v@,
                None => !self@.dom().contains(name@),
            },
    {
        let i = self.place(name);
        proof {
            use_type_invariant(&self);
        }
        let ghost before = self.entries@;
        let ghost key = name@;
        let mut entries = self.entries;
        proof {
            assert(names_of(pairs_of(before)) =~= kept_names(before));
        }
        if i < entries.len() && same_text(entries[i].0.as_str(), name) {
            let taken = entries.remove(i);
            proof {
                lemma_taken(before, entries@, i as int, key);
                lemma_named_at(pairs_of(before), i as int);
            }
            (NameTable { entries }, Some(taken.1))
        } else {
            proof {
                lemma_absent(before, i as int, key);
                assert(named(pairs_of(before)).remove(key) =~= named(pairs_of(before)));
            }
            (NameTable { entries }, None)
        }
    }

    pub fn is_empty(&self) -> (r: bool)
        ensures
            r == (self@ == Map::<Seq<char>, T::V>::empty()),
    {
        proof {
            use_type_invariant(self);
            let pairs = pairs_of(self.entries@);
            assert(names_of(pairs) =~= kept_names(self.entries@));
            if pairs.len() > 0 {
                lemma_named_at(pairs, 0);
                assert(named(pairs).dom().contains(pairs[0].0));
            }
        }
        self.entries.len() == 0
    }
}

proof fn lemma_absent<T: View>(before: Seq<(String, T)>, i: int, key: Seq<char>)
    requires
        increasing(kept_names(before)),
        0 <= i <= before.len(),
        forall|k: int| 0 <= k < i ==> !text_le(key, (#[trigger] before[k]).0@),
        forall|k: int| i <= k < before.len() ==> text_le(key, (#[trigger] before[k]).0@),
        i < before.len() ==> before[i].0@ != key,
    ensures
        !named(pairs_of(before)).dom().contains(key),
{
    let s = pairs_of(before);
    let names = kept_names(before);
    assert(names_of(s) =~= names);
    lemma_named_dom(s, key);
    lemma_text_order_total();
    let r = text_order();
    if names.contains(key) {
        let k = choose|k: int| 0 <= k < names.len() && names[k] == key;
        assert(r(key, key));
        assert(before[k].0@ == key);
        assert(k > i);
        assert(names[i] != names[k]);
        assert(r(names[i], key));
        assert(text_le(key, before[i].0@));
        assert(r(key, names[i]));
    }
}

proof fn lemma_taken<T: View>(
    before: Seq<(String, T)>,
    after: Seq<(String, T)>,
    i: int,
    key: Seq<char>,
)
    requires
        increasing(kept_names(before)),
        0 <= i < before.len(),
        before[i].0@ == key,
        after == before.remove(i),
    ensures
        increasing(kept_names(after)),
        named(pairs_of(after)) == named(pairs_of(before)).remove(key),
{
    let s = pairs_of(before);
    let t = pairs_of(after);
    let m = named(s).remove(key);
    let old_names = kept_names(before);
    let names = kept_names(after);
    assert(names_of(s) =~= old_names);
    assert(names_of(t) =~= names);
    assert forall|k: int| 0 <= k < after.len() implies #[trigger] after[k] == before[if k < i {
        k
    } else {
        k + 1
    }] by {}
    assert forall|a: int, b: int| 0 <= a < b < names.len() implies text_le(names[a], names[b])
        && #[trigger] names[a] != #[trigger] names[b] by {
        let x = if a < i {
            a
        } else {
            a + 1
        };
        let y = if b < i {
            b
        } else {
            b + 1
        };
        assert(after[a] == before[x] && after[b] == before[y]);
        assert(old_names[x] != old_names[y]);
    }
    assert forall|k: int| 0 <= k < t.len() implies m.dom().contains((#[trigger] t[k]).0) && m[t[k].0]
        == t[k].1 by {
        let x = if k < i {
            k
        } else {
            k + 1
        };
        assert(after[k] == before[x]);
        assert(t[k] == s[x]);
        lemma_named_at(s, x);
        if x < i {
            assert(old_names[x] != old_names[i]);
        } else {
            assert(old_names[i] != old_names[x]);
        }
    }
    assert forall|k: Seq<char>| #[trigger] m.dom().contains(k) implies names_of(t).contains(k) by {
        lemma_named_dom(s, k);
        let j = choose|j: int| 0 <= j < names_of(s).len() && names_of(s)[j] == k;
        let y = if j < i {
            j
        } else {
            j - 1
        };
        assert(j != i);
        assert(after[y] == before[j]);
        assert(names_of(t)[y] == k);
    }
    lemma_named_eq(t, m);
}

proof fn lemma_stored<T: View>(
    before: Seq<(String, T)>,
    after: Seq<(String, T)>,
    i: int,
    key: Seq<char>,
    held: T::V,
)
    requires
        increasing(kept_names(before)),
        0 <= i < before.len(),
        before[i].0@ == key,
        after.len() == before.len(),
        after[i].0@ == key,
        after[i].1@ == held,
        forall|k: int| 0 <= k < before.len() && k != i ==> after[k] == #[trigger] before[k],
    ensures
        named(pairs_of(after)) == named(pairs_of(before)).insert(key, held),
{
    let s = pairs_of(before);
    let t = pairs_of(after);
    let m = named(s).insert(key, held);
    assert(names_of(s) =~= kept_names(before));
    assert(names_of(t) =~= names_of(s));
    assert forall|k: int| 0 <= k < t.len() implies m.dom().contains((#[trigger] t[k]).0) && m[t[k].0]
        == t[k].1 by {
        if k != i {
            lemma_named_at(s, k);
            assert(t[k] == s[k]);
            assert(names_of(s)[k] == s[k].0);
            assert(names_of(s)[i] == key);
            if k < i {
                assert(names_of(s)[k] != names_of(s)[i]);
            } else {
                assert(names_of(s)[i] != names_of(s)[k]);
            }
        }
    }
    assert forall|k: Seq<char>| #[trigger] m.dom().contains(k) implies names_of(t).contains(k) by {
        lemma_named_dom(s, k);
        assert(names_of(t)[i] == key);
    }
    lemma_named_eq(t, m);
}

proof fn lemma_placed<T: View>(
    before: Seq<(String, T)>,
    after: Seq<(String, T)>,
    i: int,
    key: Seq<char>,
    held: T::V,
)
    requires
        increasing(kept_names(before)),
        0 <= i <= before.len(),
        forall|k: int| 0 <= k < i ==> !text_le(key, (#[trigger] before[k]).0@),
        forall|k: int| i <= k < before.len() ==> text_le(key, (#[trigger] before[k]).0@),
        i < before.len() ==> before[i].0@ != key,
        after.len() == before.len() + 1,
        after[i].0@ == key,
        after[i].1@ == held,
        forall|k: int| 0 <= k < i ==> #[trigger] after[k] == before[k],
        forall|k: int| i < k < after.len() ==> #[trigger] after[k] == before[k - 1],
    ensures
        increasing(kept_names(after)),
        named(pairs_of(after)) == named(pairs_of(before)).insert(key, held),
{
    let s = pairs_of(before);
    let t = pairs_of(after);
    let m = named(s).insert(key, held);
    let old_names = kept_names(before);
    let names = kept_names(after);
    assert(names_of(s) =~= old_names);
    assert(names_of(t) =~= names);
    lemma_text_order_total();
    let r = text_order();
    assert forall|k: int| 0 <= k < before.len() implies (#[trigger] old_names[k]) != key by {
        if k < i {
            assert(r(key, key));
            assert(!text_le(key, before[k].0@));
        } else if k > i {
            assert(old_names[i] != old_names[k]);
            assert(r(old_names[i], old_names[k]));
            assert(text_le(key, before[i].0@));
            assert(r(key, old_names[i]));
            if old_names[k] == key {
                assert(r(old_names[i], key));
            }
        }
    }
    assert forall|a: int, b: int| 0 <= a < b < names.len() implies text_le(names[a], names[b])
        && #[trigger] names[a] != #[trigger] names[b] by {
        let x = if a < i {
            a
        } else {
            a - 1
        };
        let y = if b < i {
            b
        } else {
            b - 1
        };
        if a != i && b != i {
            assert(names[a] == old_names[x]);
            assert(names[b] == old_names[y]);
            assert(old_names[x] != old_names[y]);
        } else if b == i {
            assert(names[a] == old_names[a]);
            assert(!text_le(key, before[a].0@));
            assert(r(key, old_names[a]) || r(old_names[a], key));
        } else {
            assert(names[b] == old_names[b - 1]);
            assert(text_le(key, before[b - 1].0@));
        }
    }
    assert forall|k: int| 0 <= k < t.len() implies m.dom().contains((#[trigger] t[k]).0) && m[t[k].0]
        == t[k].1 by {
        if k < i {
            lemma_named_at(s, k);
            assert(t[k] == s[k]);
            assert(old_names[k] != key);
        } else if k > i {
            lemma_named_at(s, k - 1);
            assert(t[k] == s[k - 1]);
            assert(old_names[k - 1] != key);
        }
    }
    assert forall|k: Seq<char>| #[trigger] m.dom().contains(k) implies names_of(t).contains(k) by {
        lemma_named_dom(s, k);
        if k == key {
            assert(names_of(t)[i] == key);
        } else {
            let j = choose|j: int| 0 <= j < names_of(s).len() && names_of(s)[j] == k;
            if j < i {
                assert(names_of(t)[j] == k);
            } else {
                assert(names_of(t)[j + 1] == k);
            }
        }
    }
    lemma_named_eq(t, m);
}

} // verus!
