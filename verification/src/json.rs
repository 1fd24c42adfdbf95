//! Structured values as they travel in requests, results and settings.

pub mod value;

use crate::text::{owned, same_text};
use vstd::prelude::*;

verus! {

/// A number: whole where it fits 64 bits, else as it is written.
#[derive(Debug)]
pub enum Number {
    Unsigned(u64),
    Negative(i64),
    Other(String),
}

#[verifier::ext_equal]
pub enum NumberView {
    Unsigned(u64),
    Negative(i64),
    Other(Seq<char>),
}

impl View for Number {
    type V = NumberView;

    open spec fn view(&self) -> NumberView {
        match self {
            Number::Unsigned(n) => NumberView::Unsigned(*n),
            Number::Negative(n) => NumberView::Negative(*n),
            Number::Other(s) => NumberView::Other(s@),
        }
    }
}

/// A structured value. Of two entries of an object with one key the later counts.
#[derive(Debug)]
pub enum Json {
    Null,
    Bool(bool),
    Number(Number),
    Text(String),
    Array(Vec<Json>),
    Object(Vec<(String, Json)>),
}

#[verifier::ext_equal]
pub enum JsonView {
    Null,
    Bool(bool),
    Number(NumberView),
    Text(Seq<char>),
    Array(Seq<JsonView>),
    Object(Map<Seq<char>, JsonView>),
}

pub open spec fn json_view(j: Json) -> JsonView
    decreases j,
{
    match j {
        Json::Null => JsonView::Null,
        Json::Bool(b) => JsonView::Bool(b),
        Json::Number(n) => JsonView::Number(n@),
        Json::Text(s) => JsonView::Text(s@),
        Json::Array(v) => JsonView::Array(items_view(v@)),
        Json::Object(v) => JsonView::Object(entries_view(v@)),
    }
}

pub open spec fn items_view(s: Seq<Json>) -> Seq<JsonView>
    decreases s,
{
    if s.len() == 0 {
        seq![]
    } else {
        items_view(s.drop_last()).push(json_view(s.last()))
    }
}

pub open spec fn entries_view(s: Seq<(String, Json)>) -> Map<Seq<char>, JsonView>
    decreases s,
{
    if s.len() == 0 {
        Map::empty()
    } else {
        entries_view(s.drop_last()).insert(s.last().0@, json_view(s.last().1))
    }
}

impl View for Json {
    type V = JsonView;

    open spec fn view(&self) -> JsonView {
        json_view(*self)
    }
}

/// The entries of an object; none where the value is no object.
pub open spec fn fields_of(j: JsonView) -> Map<Seq<char>, JsonView> {
    match j {
        JsonView::Object(m) => m,
        _ => Map::empty(),
    }
}

/// What stands under a key, where the value is an object that has it.
pub open spec fn field(j: JsonView, key: Seq<char>) -> Option<JsonView> {
    match j {
        JsonView::Object(m) => if m.dom().contains(key) {
            Some(m[key])
        } else {
            None
        },
        _ => None,
    }
}

pub open spec fn text_at(j: JsonView, key: Seq<char>) -> Option<Seq<char>> {
    match field(j, key) {
        Some(JsonView::Text(s)) => Some(s),
        _ => None,
    }
}

/// The value as a number from zero on, where it is one.
pub open spec fn unsigned_of(j: JsonView) -> Option<u64> {
    match j {
        JsonView::Number(NumberView::Unsigned(n)) => Some(n),
        _ => None,
    }
}

/// The value as a number with a sign, where it is one and fits.
pub open spec fn signed_of(j: JsonView) -> Option<i64> {
    match j {
        JsonView::Number(NumberView::Unsigned(n)) => if n <= i64::MAX {
            Some(n as i64)
        } else {
            None
        },
        JsonView::Number(NumberView::Negative(n)) => Some(n),
        _ => None,
    }
}

impl Json {
    pub fn as_u64(&self) -> (r: Option<u64>)
        ensures
            r == unsigned_of(self@),
    {
        match self {
            Json::Number(Number::Unsigned(n)) => Some(*n),
            _ => None,
        }
    }

    pub fn as_i64(&self) -> (r: Option<i64>)
        ensures
            r == signed_of(self@),
    {
        match self {
            Json::Number(Number::Unsigned(n)) => if *n <= i64::MAX as u64 {
                Some(*n as i64)
            } else {
                None
            },
            Json::Number(Number::Negative(n)) => Some(*n),
            _ => None,
        }
    }

    /// A copy of the value.
    pub fn copy(&self) -> (r: Json)
        ensures
            r@ == self@,
        decreases self,
    {
        match self {
            Json::Null => Json::Null,
            Json::Bool(b) => Json::Bool(*b),
            Json::Number(n) => match n {
                Number::Unsigned(v) => Json::Number(Number::Unsigned(*v)),
                Number::Negative(v) => Json::Number(Number::Negative(*v)),
                Number::Other(s) => Json::Number(Number::Other(s.clone())),
            },
            Json::Text(s) => Json::Text(s.clone()),
            Json::Array(v) => Json::Array(copy_items(v)),
            Json::Object(v) => Json::Object(copy_entries(v)),
        }
    }

    pub fn text(s: &str) -> (r: Json)
        ensures
            r@ == JsonView::Text(s@),
    {
        Json::Text(owned(s))
    }

    pub fn count(n: u64) -> (r: Json)
        ensures
            r@ == JsonView::Number(NumberView::Unsigned(n)),
    {
        Json::Number(Number::Unsigned(n))
    }

    /// An object without entries.
    pub fn empty() -> (r: Json)
        ensures
            r@ == JsonView::Object(Map::empty()),
    {
        Json::Object(Vec::new())
    }

    /// What stands under `key`.
    pub fn get(&self, key: &str) -> (r: Option<&Json>)
        ensures
            match r {
                Some(j) => field(self@, key@) == Some(j@),
                None => field(self@, key@) is None,
            },
    {
        match self {
            Json::Object(v) => find_entry(v, key),
            _ => None,
        }
    }

    /// The text under `key`.
    pub fn get_text(&self, key: &str) -> (r: Option<&str>)
        ensures
            match r {
                Some(s) => text_at(self@, key@) == Some(s@),
                None => text_at(self@, key@) is None,
            },
    {
        match self.get(key) {
            Some(Json::Text(s)) => Some(s.as_str()),
            _ => None,
        }
    }

    pub fn is_object(&self) -> (r: bool)
        ensures
            r == (self@ is Object),
    {
        match self {
            Json::Object(_) => true,
            _ => false,
        }
    }
}

fn copy_items(v: &Vec<Json>) -> (r: Vec<Json>)
    ensures
        items_view(r@) == items_view(v@),
    decreases v,
{
    let mut out: Vec<Json> = Vec::new();
    let mut i: usize = 0;
    proof {
        assert(v@.take(0) =~= seq![]);
    }
    while i < v.len()
        invariant
            i <= v@.len(),
            items_view(out@) == items_view(v@.take(i as int)),
        decreases v@.len() - i,
    {
        let item = v[i].copy();
        proof {
            assert(out@.push(item).drop_last() =~= out@);
            assert(v@.take(i + 1).drop_last() =~= v@.take(i as int));
        }
        out.push(item);
        i = i + 1;
    }
    proof {
        assert(v@.take(v@.len() as int) =~= v@);
    }
    out
}

fn copy_entries(v: &Vec<(String, Json)>) -> (r: Vec<(String, Json)>)
    ensures
        entries_view(r@) == entries_view(v@),
    decreases v,
{
    let mut out: Vec<(String, Json)> = Vec::new();
    let mut i: usize = 0;
    proof {
        assert(v@.take(0) =~= seq![]);
    }
    while i < v.len()
        invariant
            i <= v@.len(),
            entries_view(out@) == entries_view(v@.take(i as int)),
        decreases v@.len() - i,
    {
        let entry = (v[i].0.clone(), v[i].1.copy());
        proof {
            assert(out@.push(entry).drop_last() =~= out@);
            assert(v@.take(i + 1).drop_last() =~= v@.take(i as int));
        }
        out.push(entry);
        i = i + 1;
    }
    proof {
        assert(v@.take(v@.len() as int) =~= v@);
    }
    out
}

fn find_entry<'a>(v: &'a Vec<(String, Json)>, key: &str) -> (r: Option<&'a Json>)
    ensures
        match r {
            Some(j) => entries_view(v@).dom().contains(key@) && entries_view(v@)[key@] == j@,
            None => !entries_view(v@).dom().contains(key@),
        },
{
    let mut n: usize = v.len();
    proof {
        assert(v@.take(v@.len() as int) =~= v@);
    }
    while n > 0
        invariant
            n <= v@.len(),
            entries_view(v@).dom().contains(key@) == entries_view(v@.take(n as int)).dom().contains(
                key@,
            ),
            entries_view(v@)[key@] == entries_view(v@.take(n as int))[key@],
        decreases n,
    {
        proof {
            assert(v@.take(n as int).drop_last() =~= v@.take(n - 1));
        }
        if same_text(v[n - 1].0.as_str(), key) {
            return Some(&v[n - 1].1);
        }
        n = n - 1;
    }
    None
}

/// Puts an entry behind the others.
pub fn put(entries: &mut Vec<(String, Json)>, key: &str, value: Json)
    ensures
        entries_view(final(entries)@) == entries_view(old(entries)@).insert(key@, value@),
{
    let ghost before = entries@;
    entries.push((owned(key), value));
    proof {
        assert(entries@.drop_last() =~= before);
    }
}

/// Puts a value behind the others.
pub fn add_item(items: &mut Vec<Json>, value: Json)
    ensures
        items_view(final(items)@) == items_view(old(items)@).push(value@),
{
    let ghost before = items@;
    items.push(value);
    proof {
        assert(items@.drop_last() =~= before);
    }
}

/// Takes out every entry with this key.
pub fn drop_entry(entries: &mut Vec<(String, Json)>, key: &str)
    ensures
        entries_view(final(entries)@) == entries_view(old(entries)@).remove(key@),
        final(entries)@.len() <= old(entries)@.len(),
{
    let ghost given = entries@;
    let mut kept: Vec<(String, Json)> = Vec::new();
    let mut rest: Vec<(String, Json)> = Vec::new();
    rest.append(entries);
    proof {
        assert(rest@ =~= given);
        assert(given.take(given.len() as int) =~= given);
    }
    // Walks from the back, so what is kept is gathered in reverse.
    while rest.len() > 0
        invariant
            rest@ == given.take(rest@.len() as int),
            rest@.len() + kept@.len() <= given.len(),
            entries_view(given).remove(key@) == entries_view(rest@ + kept@.reverse()).remove(key@),
            forall|i: int| 0 <= i < kept@.len() ==> (#[trigger] kept@[i]).0@ != key@,
        decreases rest@.len(),
    {
        let ghost before = rest@;
        let ghost kept_before = kept@;
        match rest.pop() {
            Some(entry) => {
                if same_text(entry.0.as_str(), key) {
                    proof {
                        lemma_entry_dropped(rest@, entry, kept@.reverse(), key@);
                        assert(before + kept@.reverse() =~= rest@.push(entry) + kept@.reverse());
                    }
                } else {
                    kept.push(entry);
                    proof {
                        assert(rest@ + kept@.reverse() =~= before + kept_before.reverse());
                    }
                }
            },
            None => {},
        }
    }
    let ghost kept_all = kept@;
    proof {
        assert(rest@ + kept_all.reverse() =~= kept_all.reverse());
        assert forall|i: int| 0 <= i < kept_all.reverse().len() implies (
        #[trigger] kept_all.reverse()[i]).0@ != key@ by {
            assert(kept_all.reverse()[i] == kept_all[kept_all.len() - 1 - i]);
        }
        lemma_no_entry(kept_all.reverse(), key@);
        assert(entries_view(kept_all.reverse()).remove(key@) =~= entries_view(kept_all.reverse()));
    }
    let mut out: Vec<(String, Json)> = Vec::new();
    while kept.len() > 0
        invariant
            kept@.len() + out@.len() == kept_all.len(),
            kept@ == kept_all.take(kept@.len() as int),
            out@ == kept_all.reverse().take(out@.len() as int),
        decreases kept@.len(),
    {
        let ghost before = kept@;
        match kept.pop() {
            Some(entry) => {
                proof {
                    assert(entry == kept_all.reverse()[out@.len() as int]);
                    assert(out@.push(entry) =~= kept_all.reverse().take(out@.len() as int + 1));
                }
                out.push(entry);
            },
            None => {},
        }
    }
    proof {
        assert(kept_all.reverse().take(out@.len() as int) =~= kept_all.reverse());
    }
    *entries = out;
}

proof fn lemma_no_entry(s: Seq<(String, Json)>, key: Seq<char>)
    requires
        forall|i: int| 0 <= i < s.len() ==> (#[trigger] s[i]).0@ != key,
    ensures
        !entries_view(s).dom().contains(key),
    decreases s.len(),
{
    if s.len() > 0 {
        assert forall|i: int| 0 <= i < s.drop_last().len() implies (#[trigger] s.drop_last()[i]).0@
            != key by {
            assert(s[i] == s.drop_last()[i]);
        }
        lemma_no_entry(s.drop_last(), key);
        assert(s[s.len() - 1].0@ != key);
    }
}

proof fn lemma_entry_dropped(
    front: Seq<(String, Json)>,
    entry: (String, Json),
    back: Seq<(String, Json)>,
    key: Seq<char>,
)
    requires
        entry.0@ == key,
    ensures
        entries_view(front.push(entry) + back).remove(key) == entries_view(front + back).remove(
            key,
        ),
    decreases back.len(),
{
    let with = front.push(entry) + back;
    let without = front + back;
    if back.len() == 0 {
        assert(with =~= front.push(entry));
        assert(without =~= front);
        assert(with.drop_last() =~= front);
        assert(entries_view(with).remove(key) =~= entries_view(without).remove(key));
    } else {
        assert(with.drop_last() =~= front.push(entry) + back.drop_last());
        assert(without.drop_last() =~= front + back.drop_last());
        lemma_entry_dropped(front, entry, back.drop_last(), key);
        assert(with.last() == back.last() && without.last() == back.last());
        let a = entries_view(with.drop_last());
        let b = entries_view(without.drop_last());
        let k = back.last().0@;
        let v = json_view(back.last().1);
        assert(entries_view(with) == a.insert(k, v));
        assert(entries_view(without) == b.insert(k, v));
        if k == key {
            assert(a.insert(k, v).remove(key) =~= a.remove(key));
            assert(b.insert(k, v).remove(key) =~= b.remove(key));
        } else {
            assert(a.insert(k, v).remove(key) =~= a.remove(key).insert(k, v));
            assert(b.insert(k, v).remove(key) =~= b.remove(key).insert(k, v));
        }
    }
}

/// Puts a value under a key in place of what was there.
pub fn set_field(entries: &mut Vec<(String, Json)>, key: &str, value: Json)
    ensures
        entries_view(final(entries)@) == entries_view(old(entries)@).insert(key@, value@),
{
    drop_entry(entries, key);
    let ghost kept = entries_view(entries@);
    put(entries, key, value);
    proof {
        assert(entries_view(entries@) =~= entries_view(old(entries)@).insert(key@, value@));
    }
}

// ---------------------------------------------------------------------------
// Merging
// ---------------------------------------------------------------------------
/// What stands under a key, or null.
pub open spec fn entry_or_null(m: Map<Seq<char>, JsonView>, key: Seq<char>) -> JsonView {
    if m.dom().contains(key) {
        m[key]
    } else {
        JsonView::Null
    }
}

/// `base` with `overlay` laid over it: objects are merged entry by entry, and
/// anything else is replaced.
pub open spec fn merged(base: JsonView, overlay: JsonView) -> JsonView
    decreases overlay,
{
    match (base, overlay) {
        (JsonView::Object(b), JsonView::Object(o)) => JsonView::Object(
            Map::new(
                |k: Seq<char>| b.dom().contains(k) || o.dom().contains(k),
                |k: Seq<char>|
                    if o.dom().contains(k) {
                        merged(entry_or_null(b, k), o[k])
                    } else {
                        b[k]
                    },
            ),
        ),
        _ => overlay,
    }
}

/// The entries of `b` with those of `o` laid over them.
pub open spec fn merged_entries(
    b: Map<Seq<char>, JsonView>,
    o: Map<Seq<char>, JsonView>,
) -> Map<Seq<char>, JsonView> {
    Map::new(
        |k: Seq<char>| b.dom().contains(k) || o.dom().contains(k),
        |k: Seq<char>|
            if o.dom().contains(k) {
                merged(entry_or_null(b, k), o[k])
            } else {
                b[k]
            },
    )
}

proof fn lemma_merged_objects(b: Map<Seq<char>, JsonView>, o: Map<Seq<char>, JsonView>)
    ensures
        merged(JsonView::Object(b), JsonView::Object(o)) == JsonView::Object(merged_entries(b, o)),
{
    let m = fields_of(merged(JsonView::Object(b), JsonView::Object(o)));
    assert(m =~= merged_entries(b, o));
}

/// Lays one value over another.
pub fn json_merge(base: &Json, overlay: &Json) -> (r: Json)
    ensures
        r@ == merged(base@, overlay@),
    decreases overlay,
{
    match (base, overlay) {
        (Json::Object(b), Json::Object(o)) => {
            let out = merge_entries(b, o);
            proof {
                lemma_merged_objects(entries_view(b@), entries_view(o@));
            }
            Json::Object(out)
        },
        _ => overlay.copy(),
    }
}

fn merge_entries(b: &Vec<(String, Json)>, o: &Vec<(String, Json)>) -> (r: Vec<(String, Json)>)
    ensures
        entries_view(r@) == merged_entries(entries_view(b@), entries_view(o@)),
    decreases o,
{
    let ghost below = entries_view(b@);
    let mut out = copy_entries(b);
    let mut i: usize = 0;
    proof {
        assert(o@.take(0) =~= seq![]);
        assert(merged_entries(below, Map::empty()) =~= below);
    }
    while i < o.len()
        invariant
            i <= o@.len(),
            below == entries_view(b@),
            entries_view(out@) == merged_entries(below, entries_view(o@.take(i as int))),
        decreases o@.len() - i,
    {
        let key = o[i].0.as_str();
        let value = match find_entry(b, key) {
            Some(old_value) => json_merge(old_value, &o[i].1),
            None => {
                let null = Json::Null;
                json_merge(&null, &o[i].1)
            },
        };
        set_field(&mut out, key, value);
        proof {
            let before = entries_view(o@.take(i as int));
            assert(o@.take(i + 1).drop_last() =~= o@.take(i as int));
            assert(entries_view(o@.take(i + 1)) == before.insert(key@, o@[i as int].1@));
            assert(value@ == merged(entry_or_null(below, key@), o@[i as int].1@));
            assert(merged_entries(below, before.insert(key@, o@[i as int].1@)) =~= merged_entries(
                below,
                before,
            ).insert(key@, value@));
        }
        i = i + 1;
    }
    proof {
        assert(o@.take(o@.len() as int) =~= o@);
    }
    out
}

/// An empty overlay changes no object.
pub proof fn lemma_merge_empty(b: Map<Seq<char>, JsonView>)
    ensures
        merged(JsonView::Object(b), JsonView::Object(Map::empty())) == JsonView::Object(b),
{
    lemma_merged_objects(b, Map::empty());
    assert(merged_entries(b, Map::empty()) =~= b);
}

/// An overlay keeps the entries that it does not name, and the entries that it
/// names with no object on either side are its own.
pub proof fn lemma_merge_entry(
    b: Map<Seq<char>, JsonView>,
    o: Map<Seq<char>, JsonView>,
    key: Seq<char>,
)
    ensures
        ({
            let m = JsonView::Object(b);
            let out = merged(m, JsonView::Object(o));
            &&& !o.dom().contains(key) ==> field(out, key) == field(m, key)
            &&& o.dom().contains(key) && !(o[key] is Object) ==> field(out, key) == Some(o[key])
        }),
{
    lemma_merged_objects(b, o);
}

/// Laying the same value over a second time changes nothing.
pub proof fn lemma_merge_twice(base: JsonView, overlay: JsonView)
    ensures
        merged(merged(base, overlay), overlay) == merged(base, overlay),
    decreases overlay,
{
    match (base, overlay) {
        (JsonView::Object(b), JsonView::Object(o)) => {
            lemma_merged_objects(b, o);
            let once = merged_entries(b, o);
            lemma_merged_objects(once, o);
            assert forall|k: Seq<char>| once.dom().contains(k) implies #[trigger] merged_entries(
                once,
                o,
            )[k] == once[k] by {
                if o.dom().contains(k) {
                    lemma_merge_twice(entry_or_null(b, k), o[k]);
                }
            }
            assert(merged_entries(once, o) =~= once);
        },
        (_, JsonView::Object(o)) => {
            lemma_merged_objects(o, o);
            assert forall|k: Seq<char>| o.dom().contains(k) implies #[trigger] merged_entries(o, o)[k]
                == o[k] by {
                lemma_merge_self(o[k]);
            }
            assert(merged_entries(o, o) =~= o);
        },
        _ => {},
    }
}

proof fn lemma_merge_self(j: JsonView)
    ensures
        merged(j, j) == j,
    decreases j,
{
    match j {
        JsonView::Object(o) => {
            lemma_merged_objects(o, o);
            assert forall|k: Seq<char>| o.dom().contains(k) implies #[trigger] merged_entries(o, o)[k]
                == o[k] by {
                lemma_merge_self(o[k]);
            }
            assert(merged_entries(o, o) =~= o);
        },
        _ => {},
    }
}

/// Whether `over` has every entry that `below` has, in objects within objects too.
pub open spec fn covers(over: JsonView, below: JsonView) -> bool
    decreases over,
{
    match (below, over) {
        (JsonView::Object(b), JsonView::Object(o)) => {
            &&& forall|k: Seq<char>| #[trigger] b.dom().contains(k) ==> o.dom().contains(k)
            &&& forall|k: Seq<char>|
                #[trigger] o.dom().contains(k) ==> covers(o[k], entry_or_null(b, k))
        },
        _ => true,
    }
}

/// A value that covers what lies below hides it.
pub proof fn lemma_merge_covering(below: JsonView, over: JsonView)
    requires
        covers(over, below),
    ensures
        merged(below, over) == over,
    decreases over,
{
    match (below, over) {
        (JsonView::Object(b), JsonView::Object(o)) => {
            lemma_merged_objects(b, o);
            assert forall|k: Seq<char>| o.dom().contains(k) implies #[trigger] merged_entries(b, o)[k]
                == o[k] by {
                lemma_merge_covering(entry_or_null(b, k), o[k]);
            }
            assert(merged_entries(b, o) =~= o);
        },
        _ => {},
    }
}


/// What stands behind a path of keys, each in the object that the one before leads to.
pub open spec fn value_at(j: JsonView, keys: Seq<Seq<char>>) -> Option<JsonView>
    decreases keys.len(),
{
    if keys.len() == 0 {
        Some(j)
    } else {
        match field(j, keys[0]) {
            Some(v) => value_at(v, keys.drop_first()),
            None => None,
        }
    }
}

/// Whether a value says nothing of what stands behind a path of keys: it and the
/// objects on the way lack a key, and none of them is anything but an object.
pub open spec fn is_silent_on(j: JsonView, keys: Seq<Seq<char>>) -> bool
    decreases keys.len(),
{
    keys.len() > 0 && j is Object && match field(j, keys[0]) {
        Some(v) => is_silent_on(v, keys.drop_first()),
        None => true,
    }
}

proof fn lemma_silent_has_none(j: JsonView, keys: Seq<Seq<char>>)
    requires
        is_silent_on(j, keys),
    ensures
        value_at(j, keys) is None,
    decreases keys.len(),
{
    if field(j, keys[0]) is Some {
        lemma_silent_has_none(field(j, keys[0])->Some_0, keys.drop_first());
    }
}

/// At any depth, what an overlay sets counts, where it is no object; what it says
/// nothing of stays as it was; and where both have an object, the two are merged.
pub proof fn lemma_merge_at(below: JsonView, over: JsonView, keys: Seq<Seq<char>>)
    ensures
        ({
            let out = value_at(merged(below, over), keys);
            &&& is_silent_on(over, keys) ==> out == value_at(below, keys)
            &&& value_at(over, keys) matches Some(v) ==> !(v is Object) ==> out == Some(v)
            &&& value_at(over, keys) matches Some(v) ==> (value_at(below, keys) matches Some(w)
                ==> out == Some(merged(w, v)))
        }),
    decreases keys.len(),
{
    if is_silent_on(over, keys) {
        lemma_silent_has_none(over, keys);
    }
    if keys.len() > 0 {
        let rest = keys.drop_first();
        match (below, over) {
            (JsonView::Object(b), JsonView::Object(o)) => {
                lemma_merged_objects(b, o);
                let out = merged(below, over);
                assert(o.dom().contains(keys[0]) ==> field(out, keys[0]) == Some(
                    merged(entry_or_null(b, keys[0]), o[keys[0]]),
                ));
                if o.dom().contains(keys[0]) {
                    lemma_merge_at(entry_or_null(b, keys[0]), o[keys[0]], rest);
                }
            },
            _ => {},
        }
    }
}

} // verus!
