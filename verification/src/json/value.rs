//! Structured values as text, read and written by `serde_json`.

use crate::error::Error;
use crate::json::{entries_view, items_view, Json, JsonView, Number, NumberView};
use vstd::prelude::*;
use vstd::utf8::encode_utf8;

verus! {

#[verifier::external_type_specification]
#[verifier::external_body]
pub struct ExValue(serde_json::Value);

/// What a value of `serde_json` holds. A number that is whole and fits 64 bits is
/// held as that number, any other as the text that `serde_json` writes for it.
pub uninterp spec fn held(value: serde_json::Value) -> JsonView;

/// What `serde_json` reads from bytes, or its complaint about them.
pub uninterp spec fn json_read(bytes: Seq<u8>) -> Result<JsonView, Seq<char>>;

/// A value over several lines, as `serde_json` writes it.
pub uninterp spec fn pretty(json: JsonView) -> Seq<char>;

/// What several values hold.
pub open spec fn all_held(values: Seq<serde_json::Value>) -> Seq<JsonView> {
    Seq::new(values.len(), |i: int| held(values[i]))
}

/// What the entries of an object hold; of two with one key the later counts.
pub open spec fn entries_held(entries: Seq<(String, serde_json::Value)>) -> Map<Seq<char>, JsonView>
    decreases entries.len(),
{
    if entries.len() == 0 {
        Map::empty()
    } else {
        entries_held(entries.drop_last()).insert(entries.last().0@, held(entries.last().1))
    }
}

/// `serde_json::from_slice`, asked for a `serde_json::Value`: what the bytes say, or
/// the complaint about them. It is a function of the bytes.
#[verifier::external_body]
fn parse_value(bytes: &[u8]) -> (r: Result<serde_json::Value, String>)
    ensures
        match r {
            Ok(value) => json_read(bytes@) == Ok::<JsonView, Seq<char>>(held(value)),
            Err(m) => json_read(bytes@) == Err::<JsonView, Seq<char>>(m@),
        },
{
    serde_json::from_slice::<serde_json::Value>(bytes).map_err(|err| err.to_string())
}

/// `serde_json::to_string_pretty`, given a `serde_json::Value`, for which it never
/// fails: the value over several lines, the keys of an object in order. It is a
/// function of what the value holds.
#[verifier::external_body]
fn write_pretty(value: &serde_json::Value) -> (r: String)
    ensures
        r@ == pretty(held(*value)),
{
    serde_json::to_string_pretty(value).unwrap_or_default()
}

/// `serde_json::Value::Null`.
#[verifier::external_body]
fn null_value() -> (r: serde_json::Value)
    ensures
        held(r) == JsonView::Null,
{
    serde_json::Value::Null
}

/// `serde_json::Value::from` of a truth value.
#[verifier::external_body]
fn bool_value(b: bool) -> (r: serde_json::Value)
    ensures
        held(r) == JsonView::Bool(b),
{
    serde_json::Value::from(b)
}

/// `serde_json::Value::from` of a number from zero on.
#[verifier::external_body]
fn count_value(n: u64) -> (r: serde_json::Value)
    ensures
        held(r) == JsonView::Number(NumberView::Unsigned(n)),
{
    serde_json::Value::from(n)
}

/// `serde_json::Value::from` of a number below zero.
#[verifier::external_body]
fn negative_value(n: i64) -> (r: serde_json::Value)
    requires
        n < 0,
    ensures
        held(r) == JsonView::Number(NumberView::Negative(n)),
{
    serde_json::Value::from(n)
}

/// `serde_json::Value::from` of a text.
#[verifier::external_body]
fn text_value(s: &str) -> (r: serde_json::Value)
    ensures
        held(r) == JsonView::Text(s@),
{
    serde_json::Value::from(s)
}

/// `serde_json::Value::Array`.
#[verifier::external_body]
fn array_value(items: Vec<serde_json::Value>) -> (r: serde_json::Value)
    ensures
        held(r) == JsonView::Array(all_held(items@)),
{
    serde_json::Value::Array(items)
}

/// `serde_json::Map::from_iter` and `serde_json::Value::Object`: the object with the
/// entries; of two with one key the later counts.
#[verifier::external_body]
fn object_value(entries: Vec<(String, serde_json::Value)>) -> (r: serde_json::Value)
    ensures
        held(r) == JsonView::Object(entries_held(entries@)),
{
    serde_json::Value::Object(serde_json::Map::from_iter(entries))
}

/// A value of `serde_json`, one level deep.
enum Part {
    Null,
    Bool(bool),
    Number(Number),
    Text(String),
    Array(Vec<serde_json::Value>),
    Object(Vec<(String, serde_json::Value)>),
}

spec fn part_held(part: Part) -> JsonView {
    match part {
        Part::Null => JsonView::Null,
        Part::Bool(b) => JsonView::Bool(b),
        Part::Number(n) => JsonView::Number(n@),
        Part::Text(s) => JsonView::Text(s@),
        Part::Array(items) => JsonView::Array(all_held(items@)),
        Part::Object(entries) => JsonView::Object(entries_held(entries@)),
    }
}

spec fn keys_differ(entries: Seq<(String, serde_json::Value)>) -> bool {
    forall|i: int, j: int|
        0 <= i < j < entries.len() ==> (#[trigger] entries[i]).0@ != (#[trigger] entries[j]).0@
}

/// The variants of `serde_json::Value`, `serde_json::Number::as_u64`, `as_i64` and
/// `to_string`, and `serde_json::Map::into_iter`: what a value holds, one level deep.
/// An object has no key twice.
#[verifier::external_body]
fn take_apart(value: serde_json::Value) -> (r: Part)
    ensures
        part_held(r) == held(value),
        r matches Part::Object(entries) ==> keys_differ(entries@),
{
    match value {
        serde_json::Value::Null => Part::Null,
        serde_json::Value::Bool(b) => Part::Bool(b),
        serde_json::Value::Number(n) => Part::Number(match (n.as_u64(), n.as_i64()) {
            (Some(u), _) => Number::Unsigned(u),
            (None, Some(i)) => Number::Negative(i),
            (None, None) => Number::Other(n.to_string()),
        }),
        serde_json::Value::String(s) => Part::Text(s),
        serde_json::Value::Array(items) => Part::Array(items),
        serde_json::Value::Object(map) => Part::Object(map.into_iter().collect()),
    }
}

/// A value as it is sent. A number that is written out becomes what `serde_json` reads
/// from its text, and nothing where it reads nothing.
pub open spec fn as_sent(j: JsonView) -> JsonView
    decreases j,
{
    match j {
        JsonView::Number(NumberView::Other(s)) => match json_read(encode_utf8(s)) {
            Ok(v) => v,
            Err(_) => JsonView::Null,
        },
        JsonView::Number(NumberView::Negative(n)) => if n >= 0 {
            JsonView::Number(NumberView::Unsigned(n as u64))
        } else {
            j
        },
        JsonView::Array(items) => JsonView::Array(
            Seq::new(
                items.len(),
                |i: int|
                    if 0 <= i < items.len() {
                        as_sent(items[i])
                    } else {
                        JsonView::Null
                    },
            ),
        ),
        JsonView::Object(m) => JsonView::Object(
            Map::new(
                |k: Seq<char>| m.dom().contains(k),
                |k: Seq<char>|
                    if m.dom().contains(k) {
                        as_sent(m[k])
                    } else {
                        JsonView::Null
                    },
            ),
        ),
        _ => j,
    }
}

pub open spec fn items_sent(items: Seq<JsonView>) -> Seq<JsonView> {
    Seq::new(items.len(), |i: int| as_sent(items[i]))
}

pub open spec fn entries_sent(m: Map<Seq<char>, JsonView>) -> Map<Seq<char>, JsonView> {
    Map::new(|k: Seq<char>| m.dom().contains(k), |k: Seq<char>| as_sent(m[k]))
}

proof fn lemma_sent(j: JsonView)
    ensures
        j matches JsonView::Array(items) ==> as_sent(j) == JsonView::Array(items_sent(items)),
        j matches JsonView::Object(m) ==> as_sent(j) == JsonView::Object(entries_sent(m)),
{
    match j {
        JsonView::Array(items) => {
            assert(as_sent(j)->Array_0 =~= items_sent(items));
        },
        JsonView::Object(m) => {
            assert(as_sent(j)->Object_0 =~= entries_sent(m));
        },
        _ => {},
    }
}

/// Makes the value of `serde_json` that is sent for a value.
pub fn value_of(json: &Json) -> (r: serde_json::Value)
    ensures
        held(r) == as_sent(json@),
    decreases json,
{
    proof {
        lemma_sent(json@);
    }
    match json {
        Json::Null => null_value(),
        Json::Bool(b) => bool_value(*b),
        Json::Number(n) => match n {
            Number::Unsigned(v) => count_value(*v),
            Number::Negative(v) => if *v >= 0 {
                count_value(*v as u64)
            } else {
                negative_value(*v)
            },
            Number::Other(s) => match parse_value(s.as_str().as_bytes()) {
                Ok(value) => value,
                Err(_) => null_value(),
            },
        },
        Json::Text(s) => text_value(s.as_str()),
        Json::Array(items) => array_value(values_of(items)),
        Json::Object(entries) => object_value(entry_values_of(entries)),
    }
}

fn values_of(items: &Vec<Json>) -> (r: Vec<serde_json::Value>)
    ensures
        all_held(r@) == items_sent(items_view(items@)),
    decreases items,
{
    let mut out: Vec<serde_json::Value> = Vec::new();
    let mut i: usize = 0;
    proof {
        assert(items@.take(0) =~= seq![]);
        assert(all_held(out@) =~= items_sent(items_view(items@.take(0))));
    }
    while i < items.len()
        invariant
            i <= items@.len(),
            all_held(out@) == items_sent(items_view(items@.take(i as int))),
        decreases items@.len() - i,
    {
        let value = value_of(&items[i]);
        let ghost before = out@;
        out.push(value);
        proof {
            assert(items@.take(i + 1).drop_last() =~= items@.take(i as int));
            let view = items_view(items@.take(i as int));
            let last = items@[i as int]@;
            assert(items_view(items@.take(i + 1)) == view.push(last));
            assert(items_sent(view.push(last)) =~= items_sent(view).push(as_sent(last)));
            assert(all_held(out@) =~= all_held(before).push(held(value)));
        }
        i = i + 1;
    }
    proof {
        assert(items@.take(items@.len() as int) =~= items@);
    }
    out
}

fn entry_values_of(entries: &Vec<(String, Json)>) -> (r: Vec<(String, serde_json::Value)>)
    ensures
        entries_held(r@) == entries_sent(entries_view(entries@)),
    decreases entries,
{
    let mut out: Vec<(String, serde_json::Value)> = Vec::new();
    let mut i: usize = 0;
    proof {
        assert(entries@.take(0) =~= seq![]);
        assert(entries_held(out@) =~= entries_sent(entries_view(entries@.take(0))));
    }
    while i < entries.len()
        invariant
            i <= entries@.len(),
            entries_held(out@) == entries_sent(entries_view(entries@.take(i as int))),
        decreases entries@.len() - i,
    {
        let value = value_of(&entries[i].1);
        let ghost before = out@;
        out.push((entries[i].0.clone(), value));
        proof {
            assert(entries@.take(i + 1).drop_last() =~= entries@.take(i as int));
            let view = entries_view(entries@.take(i as int));
            let (key, last) = (entries@[i as int].0@, entries@[i as int].1@);
            assert(entries_view(entries@.take(i + 1)) == view.insert(key, last));
            assert(entries_sent(view.insert(key, last)) =~= entries_sent(view).insert(
                key,
                as_sent(last),
            ));
            assert(out@.drop_last() =~= before);
        }
        i = i + 1;
    }
    proof {
        assert(entries@.take(entries@.len() as int) =~= entries@);
    }
    out
}

fn reversed<T>(v: Vec<T>) -> (r: Vec<T>)
    ensures
        r@ == v@.reverse(),
{
    let mut rest = v;
    let mut out: Vec<T> = Vec::new();
    let ghost all = v@;
    while rest.len() > 0
        invariant
            rest@.len() <= all.len(),
            rest@ == all.take(rest@.len() as int),
            out@.len() == all.len() - rest@.len(),
            forall|i: int| 0 <= i < out@.len() ==> #[trigger] out@[i] == all[all.len() - 1 - i],
        decreases rest@.len(),
    {
        match rest.pop() {
            Some(item) => out.push(item),
            None => {},
        }
    }
    proof {
        assert(out@ =~= all.reverse());
    }
    out
}

proof fn lemma_items_are_held(items: Seq<Json>, values: Seq<serde_json::Value>)
    requires
        items.len() == values.len(),
        forall|i: int| 0 <= i < items.len() ==> (#[trigger] items[i])@ == held(values[i]),
    ensures
        items_view(items) == all_held(values),
    decreases items.len(),
{
    if items.len() > 0 {
        lemma_items_are_held(items.drop_last(), values.drop_last());
        assert(items.last()@ == held(values[items.len() - 1]));
        assert(all_held(values) =~= all_held(values.drop_last()).push(held(values.last())));
    } else {
        assert(all_held(values) =~= items_view(items));
    }
}

proof fn lemma_entries_are_held(
    entries: Seq<(String, Json)>,
    values: Seq<(String, serde_json::Value)>,
)
    requires
        entries.len() == values.len(),
        forall|i: int|
            0 <= i < entries.len() ==> (#[trigger] entries[i]).0@ == values[i].0@ && entries[i].1@
                == held(values[i].1),
    ensures
        entries_view(entries) == entries_held(values),
    decreases entries.len(),
{
    if entries.len() > 0 {
        lemma_entries_are_held(entries.drop_last(), values.drop_last());
        assert(entries.last().0@ == values[entries.len() - 1].0@);
    }
}

proof fn lemma_entry_is_held(values: Seq<(String, serde_json::Value)>, i: int)
    requires
        keys_differ(values),
        0 <= i < values.len(),
    ensures
        entries_held(values).dom().contains(values[i].0@),
        entries_held(values)[values[i].0@] == held(values[i].1),
    decreases values.len(),
{
    if i < values.len() - 1 {
        let most = values.drop_last();
        assert(keys_differ(most)) by {
            assert forall|a: int, b: int| 0 <= a < b < most.len() implies (#[trigger] most[a]).0@
                != (#[trigger] most[b]).0@ by {
                assert(most[a] == values[a] && most[b] == values[b]);
            }
        }
        lemma_entry_is_held(most, i);
        assert(values[i].0@ != values[values.len() - 1].0@);
    }
}

/// Takes over what a value of `serde_json` holds.
pub fn json_of(value: serde_json::Value) -> (r: Json)
    ensures
        r@ == held(value),
    decreases held(value), 1int,
{
    match take_apart(value) {
        Part::Null => Json::Null,
        Part::Bool(b) => Json::Bool(b),
        Part::Number(n) => Json::Number(n),
        Part::Text(s) => Json::Text(s),
        Part::Array(items) => Json::Array(items_of(items)),
        Part::Object(entries) => Json::Object(entries_of(entries)),
    }
}

fn items_of(items: Vec<serde_json::Value>) -> (r: Vec<Json>)
    ensures
        items_view(r@) == all_held(items@),
    decreases JsonView::Array(all_held(items@)), 0int,
{
    let ghost all = items@;
    let mut rest = items;
    let mut out: Vec<Json> = Vec::new();
    while rest.len() > 0
        invariant
            all == items@,
            rest@.len() <= all.len(),
            rest@ == all.take(rest@.len() as int),
            out@.len() == all.len() - rest@.len(),
            forall|i: int|
                0 <= i < out@.len() ==> (#[trigger] out@[i])@ == held(all[all.len() - 1 - i]),
        decreases rest@.len(),
    {
        let ghost n = rest@.len() as int;
        match rest.pop() {
            Some(value) => {
                proof {
                    assert(value == all[n - 1]);
                    let whole = JsonView::Array(all_held(all));
                    assert(held(value) == whole->Array_0[n - 1]);
                    assert(decreases_to!(whole => whole->Array_0[n - 1]));
                }
                out.push(json_of(value));
            },
            None => {},
        }
    }
    let ghost backward = out@;
    let r = reversed(out);
    proof {
        assert forall|i: int| 0 <= i < r@.len() implies (#[trigger] r@[i])@ == held(all[i]) by {
            assert(r@[i] == backward[all.len() - 1 - i]);
        }
        lemma_items_are_held(r@, all);
    }
    r
}

fn entries_of(entries: Vec<(String, serde_json::Value)>) -> (r: Vec<(String, Json)>)
    requires
        keys_differ(entries@),
    ensures
        entries_view(r@) == entries_held(entries@),
    decreases JsonView::Object(entries_held(entries@)), 0int,
{
    let ghost all = entries@;
    let mut rest = entries;
    let mut out: Vec<(String, Json)> = Vec::new();
    while rest.len() > 0
        invariant
            all == entries@,
            keys_differ(all),
            rest@.len() <= all.len(),
            rest@ == all.take(rest@.len() as int),
            out@.len() == all.len() - rest@.len(),
            forall|i: int|
                0 <= i < out@.len() ==> (#[trigger] out@[i]).0@ == all[all.len() - 1 - i].0@
                    && out@[i].1@ == held(all[all.len() - 1 - i].1),
        decreases rest@.len(),
    {
        let ghost n = rest@.len() as int;
        match rest.pop() {
            Some((key, value)) => {
                proof {
                    assert((key, value) == all[n - 1]);
                    lemma_entry_is_held(all, n - 1);
                    let whole = JsonView::Object(entries_held(all));
                    assert(held(value) == whole->Object_0[key@]);
                    assert(decreases_to!(whole => whole->Object_0[key@]));
                }
                out.push((key, json_of(value)));
            },
            None => {},
        }
    }
    let ghost backward = out@;
    let r = reversed(out);
    proof {
        assert forall|i: int| 0 <= i < r@.len() implies (#[trigger] r@[i]).0@ == all[i].0@
            && r@[i].1@ == held(all[i].1) by {
            assert(r@[i] == backward[all.len() - 1 - i]);
        }
        lemma_entries_are_held(r@, all);
    }
    r
}

/// A value over several lines, as people like to read it.
pub fn pretty_text(json: &Json) -> (r: String)
    ensures
        r@ == pretty(as_sent(json@)),
{
    let value = value_of(json);
    write_pretty(&value)
}

/// Reads a value from bytes.
pub fn parse_json(bytes: &[u8]) -> (r: Result<Json, Error>)
    ensures
        match r {
            Ok(j) => json_read(bytes@) == Ok::<JsonView, Seq<char>>(j@),
            Err(e) => json_read(bytes@) == Err::<JsonView, Seq<char>>(e@),
        },
{
    match parse_value(bytes) {
        Ok(value) => Ok(json_of(value)),
        Err(m) => Err(Error::new(m)),
    }
}

} // verus!
