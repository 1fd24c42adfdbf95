//! Edits against numbered positions of a sequence, applied in one pass.

pub mod laws;

use crate::text::{lemma_views_push, views};
use vstd::prelude::*;

verus! {

/// What an [`Edit`] says: put `replacement` where `start..end` was.
#[verifier::ext_equal]
pub struct EditView<V> {
    pub start: int,
    pub end: int,
    pub replacement: Seq<V>,
    pub order: int,
}

/// One edit. An edit whose range is empty inserts.
pub struct Edit<T> {
    pub start: usize,
    pub end: usize,
    pub replacement: Vec<T>,
    pub order: usize,
}

impl<T: View> View for Edit<T> {
    type V = EditView<T::V>;

    open spec fn view(&self) -> EditView<T::V> {
        EditView {
            start: self.start as int,
            end: self.end as int,
            replacement: views(self.replacement@),
            order: self.order as int,
        }
    }
}

/// Edits are applied by position; at one position insertions come before the
/// edit that replaces, and otherwise the lower order comes first.
pub open spec fn precedes<V>(a: EditView<V>, b: EditView<V>) -> bool {
    if a.start != b.start {
        a.start < b.start
    } else if (a.end > a.start) != (b.end > b.start) {
        b.end > b.start
    } else {
        a.order < b.order
    }
}

/// `edit` put behind the edits at the front of `sorted` that it does not precede.
pub open spec fn placed<V>(sorted: Seq<EditView<V>>, edit: EditView<V>) -> Seq<EditView<V>>
    decreases sorted.len(),
{
    if sorted.len() > 0 && precedes(edit, sorted.last()) {
        placed(sorted.drop_last(), edit).push(sorted.last())
    } else {
        sorted.push(edit)
    }
}

/// The edits in the order in which they apply. Edits that neither precedes the
/// other keep the order in which they were given.
pub open spec fn in_order<V>(edits: Seq<EditView<V>>) -> Seq<EditView<V>>
    decreases edits.len(),
{
    if edits.len() == 0 {
        seq![]
    } else {
        placed(in_order(edits.drop_last()), edits.last())
    }
}

/// What `items` becomes from position `cursor` on, or nothing where an edit
/// starts before the position that was reached.
pub open spec fn spliced<V>(items: Seq<V>, edits: Seq<EditView<V>>, cursor: int) -> Option<Seq<V>>
    decreases edits.len(),
{
    if edits.len() == 0 {
        Some(items.skip(cursor))
    } else {
        let edit = edits[0];
        if edit.start < cursor {
            None
        } else {
            match spliced(items, edits.drop_first(), edit.end) {
                Some(rest) => Some(items.subrange(cursor, edit.start) + edit.replacement + rest),
                None => None,
            }
        }
    }
}

/// `items` with `edits` made, or nothing where two of them overlap.
pub open spec fn edited<V>(items: Seq<V>, edits: Seq<EditView<V>>) -> Option<Seq<V>> {
    spliced(items, in_order(edits), 0)
}

/// Every edit lies within a sequence of `total` items.
pub open spec fn within<V>(edits: Seq<EditView<V>>, total: int) -> bool {
    forall|i: int|
        0 <= i < edits.len() ==> 0 <= (#[trigger] edits[i]).start <= edits[i].end <= total
}

pub fn comes_first<T: View>(a: &Edit<T>, b: &Edit<T>) -> (r: bool)
    ensures
        r == precedes(a@, b@),
{
    if a.start != b.start {
        a.start < b.start
    } else if (a.end > a.start) != (b.end > b.start) {
        b.end > b.start
    } else {
        a.order < b.order
    }
}

pub proof fn lemma_placed_at<V>(sorted: Seq<EditView<V>>, edit: EditView<V>, k: int)
    requires
        0 <= k <= sorted.len(),
        forall|j: int| k <= j < sorted.len() ==> precedes(edit, #[trigger] sorted[j]),
        k > 0 ==> !precedes(edit, sorted[k - 1]),
    ensures
        placed(sorted, edit) == sorted.insert(k, edit),
    decreases sorted.len(),
{
    if k < sorted.len() {
        assert(precedes(edit, sorted[sorted.len() - 1]));
        lemma_placed_at(sorted.drop_last(), edit, k);
        assert(sorted.drop_last().insert(k, edit).push(sorted.last()) =~= sorted.insert(k, edit));
    } else {
        assert(sorted.push(edit) =~= sorted.insert(k, edit));
    }
}

fn place<T: View>(sorted: &mut Vec<Edit<T>>, edit: Edit<T>)
    ensures
        views(final(sorted)@) == placed(views(old(sorted)@), edit@),
{
    let mut k: usize = sorted.len();
    while k > 0 && comes_first(&edit, &sorted[k - 1])
        invariant
            k <= sorted@.len(),
            forall|j: int| k <= j < sorted@.len() ==> precedes(edit@, #[trigger] views(sorted@)[j]),
        decreases k,
    {
        k = k - 1;
    }
    proof {
        lemma_placed_at(views(sorted@), edit@, k as int);
        assert(views(sorted@.insert(k as int, edit)) =~= views(sorted@).insert(k as int, edit@));
    }
    sorted.insert(k, edit);
}

/// Sorts edits into the order in which they apply.
pub fn sort_edits<T: View>(edits: Vec<Edit<T>>) -> (r: Vec<Edit<T>>)
    ensures
        views(r@) == in_order(views(edits@)),
{
    broadcast use lemma_views_push;

    let mut out: Vec<Edit<T>> = Vec::new();
    let mut rest = edits;
    let mut reversed: Vec<Edit<T>> = Vec::new();
    let ghost all = views(edits@);
    while rest.len() > 0
        invariant
            rest@.len() + reversed@.len() == all.len(),
            forall|i: int| 0 <= i < rest@.len() ==> #[trigger] views(rest@)[i] == all[i],
            forall|i: int|
                0 <= i < reversed@.len() ==> #[trigger] reversed@[i]@ == all[all.len() - 1 - i],
        decreases rest@.len(),
    {
        let ghost before = rest@;
        match rest.pop() {
            Some(e) => {
                proof {
                    assert(views(before)[before.len() - 1] == e@);
                    assert forall|i: int| 0 <= i < rest@.len() implies #[trigger] views(rest@)[i]
                        == all[i] by {
                        assert(views(before)[i] == all[i]);
                    }
                }
                reversed.push(e);
            },
            None => {},
        }
    }
    let ghost mut done: int = 0;
    proof {
        assert(all.take(0) =~= seq![]);
    }
    while reversed.len() > 0
        invariant
            0 <= done,
            done + reversed@.len() == all.len(),
            views(out@) == in_order(all.take(done)),
            forall|i: int|
                0 <= i < reversed@.len() ==> #[trigger] reversed@[i]@ == all[all.len() - 1 - i],
        decreases reversed@.len(),
    {
        let ghost before = reversed@;
        match reversed.pop() {
            Some(e) => {
                proof {
                    assert(before[before.len() - 1]@ == all[done]);
                    assert(all.take(done + 1).drop_last() =~= all.take(done));
                    done = done + 1;
                }
                place(&mut out, e);
            },
            None => {},
        }
    }
    proof {
        assert(all.take(done) =~= all);
    }
    out
}

proof fn lemma_placed_within<V>(sorted: Seq<EditView<V>>, edit: EditView<V>, total: int)
    requires
        within(sorted, total),
        0 <= edit.start <= edit.end <= total,
    ensures
        within(placed(sorted, edit), total),
    decreases sorted.len(),
{
    if sorted.len() > 0 && precedes(edit, sorted.last()) {
        assert(within(sorted.drop_last(), total)) by {
            assert forall|i: int| 0 <= i < sorted.drop_last().len() implies 0 <= (
            #[trigger] sorted.drop_last()[i]).start <= sorted.drop_last()[i].end <= total by {
                assert(sorted[i] == sorted.drop_last()[i]);
            }
        }
        lemma_placed_within(sorted.drop_last(), edit, total);
        let last = sorted[sorted.len() - 1];
        assert(0 <= last.start <= last.end <= total);
    }
}

pub proof fn lemma_in_order_within<V>(edits: Seq<EditView<V>>, total: int)
    requires
        within(edits, total),
    ensures
        within(in_order(edits), total),
    decreases edits.len(),
{
    if edits.len() > 0 {
        let most = edits.drop_last();
        assert(within(most, total)) by {
            assert forall|i: int| 0 <= i < most.len() implies 0 <= (#[trigger] most[i]).start
                <= most[i].end <= total by {
                assert(edits[i] == most[i]);
            }
        }
        lemma_in_order_within(most, total);
        let last = edits[edits.len() - 1];
        assert(0 <= last.start <= last.end <= total);
        lemma_placed_within(in_order(most), last, total);
    }
}

/// Appends `items[from..to]` to `out`.
pub fn copy_lines(out: &mut Vec<String>, items: &[String], from: usize, to: usize)
    requires
        from <= to <= items@.len(),
    ensures
        views(final(out)@) == views(old(out)@) + views(items@).subrange(from as int, to as int),
{
    broadcast use lemma_views_push;

    let mut i: usize = from;
    proof {
        assert(views(items@).subrange(from as int, from as int) =~= seq![]);
        assert(views(out@) + seq![] =~= views(out@));
    }
    while i < to
        invariant
            from <= i <= to <= items@.len(),
            views(out@) == views(old(out)@) + views(items@).subrange(from as int, i as int),
        decreases to - i,
    {
        proof {
            let all = views(items@);
            assert(views(old(out)@) + all.subrange(from as int, i + 1) =~= (views(old(out)@)
                + all.subrange(from as int, i as int)).push(all[i as int]));
        }
        out.push(items[i].clone());
        i = i + 1;
    }
}

/// `items` with `edits` made; nothing where two edits overlap.
pub fn edit_lines(items: &[String], edits: Vec<Edit<String>>) -> (r: Option<Vec<String>>)
    requires
        within(views(edits@), items@.len() as int),
    ensures
        match r {
            Some(out) => edited(views(items@), views(edits@)) == Some(views(out@)),
            None => edited(views(items@), views(edits@)) is None,
        },
{
    let ghost given = views(edits@);
    let sorted = sort_edits(edits);
    let ghost all = views(items@);
    let ghost order = views(sorted@);
    proof {
        lemma_in_order_within(given, items@.len() as int);
    }
    let mut out: Vec<String> = Vec::new();
    let mut cursor: usize = 0;
    let mut i: usize = 0;
    proof {
        assert(order.skip(0) =~= order);
        assert forall|t: Seq<Seq<char>>| #[trigger] (views(out@) + t) == t by {
            assert(views(out@) + t =~= t);
        }
    }
    while i < sorted.len()
        invariant
            i <= sorted@.len(),
            cursor <= items@.len(),
            all == views(items@),
            order == views(sorted@),
            order == in_order(views(edits@)),
            within(order, items@.len() as int),
            spliced(all, order, 0) == match spliced(all, order.skip(i as int), cursor as int) {
                Some(t) => Some(views(out@) + t),
                None => None,
            },
        decreases sorted@.len() - i,
    {
        let edit = &sorted[i];
        let ghost rest = order.skip(i as int);
        proof {
            assert(order[i as int] == edit@);
            assert(rest[0] == edit@);
            assert(rest.drop_first() =~= order.skip(i + 1));
        }
        if edit.start < cursor {
            return None;
        }
        let ghost before = views(out@);
        copy_lines(&mut out, items, cursor, edit.start);
        copy_lines(&mut out, edit.replacement.as_slice(), 0, edit.replacement.len());
        proof {
            let put = edit@.replacement;
            assert(put.subrange(0, put.len() as int) =~= put);
            let kept = all.subrange(cursor as int, edit.start as int);
            assert(views(out@) == before + kept + put);
            match spliced(all, rest.drop_first(), edit@.end) {
                Some(t) => {
                    assert(before + (kept + put + t) =~= before + kept + put + t);
                },
                None => {},
            }
        }
        cursor = edit.end;
        i = i + 1;
    }
    copy_lines(&mut out, items, cursor, items.len());
    proof {
        assert(all.skip(cursor as int) =~= all.subrange(cursor as int, all.len() as int));
    }
    Some(out)
}

/// Appends `items[from..to]` to `out`.
pub fn copy_bytes(out: &mut Vec<u8>, items: &[u8], from: usize, to: usize)
    requires
        from <= to <= items@.len(),
    ensures
        views(final(out)@) == views(old(out)@) + views(items@).subrange(from as int, to as int),
{
    broadcast use lemma_views_push;

    let mut i: usize = from;
    proof {
        assert(views(items@).subrange(from as int, from as int) =~= seq![]);
        assert(views(out@) + seq![] =~= views(out@));
    }
    while i < to
        invariant
            from <= i <= to <= items@.len(),
            views(out@) == views(old(out)@) + views(items@).subrange(from as int, i as int),
        decreases to - i,
    {
        proof {
            let all = views(items@);
            assert(views(old(out)@) + all.subrange(from as int, i + 1) =~= (views(old(out)@)
                + all.subrange(from as int, i as int)).push(all[i as int]));
        }
        out.push(items[i]);
        i = i + 1;
    }
}

/// `items` with `edits` made; nothing where two edits overlap.
pub fn edit_bytes(items: &[u8], edits: Vec<Edit<u8>>) -> (r: Option<Vec<u8>>)
    requires
        within(views(edits@), items@.len() as int),
    ensures
        match r {
            Some(out) => edited(views(items@), views(edits@)) == Some(views(out@)),
            None => edited(views(items@), views(edits@)) is None,
        },
{
    let ghost given = views(edits@);
    let sorted = sort_edits(edits);
    let ghost all = views(items@);
    let ghost order = views(sorted@);
    proof {
        lemma_in_order_within(given, items@.len() as int);
    }
    let mut out: Vec<u8> = Vec::new();
    let mut cursor: usize = 0;
    let mut i: usize = 0;
    proof {
        assert(order.skip(0) =~= order);
        assert forall|t: Seq<u8>| #[trigger] (views(out@) + t) == t by {
            assert(views(out@) + t =~= t);
        }
    }
    while i < sorted.len()
        invariant
            i <= sorted@.len(),
            cursor <= items@.len(),
            all == views(items@),
            order == views(sorted@),
            order == in_order(views(edits@)),
            within(order, items@.len() as int),
            spliced(all, order, 0) == match spliced(all, order.skip(i as int), cursor as int) {
                Some(t) => Some(views(out@) + t),
                None => None,
            },
        decreases sorted@.len() - i,
    {
        let edit = &sorted[i];
        let ghost rest = order.skip(i as int);
        proof {
            assert(order[i as int] == edit@);
            assert(rest[0] == edit@);
            assert(rest.drop_first() =~= order.skip(i + 1));
        }
        if edit.start < cursor {
            return None;
        }
        let ghost before = views(out@);
        copy_bytes(&mut out, items, cursor, edit.start);
        copy_bytes(&mut out, edit.replacement.as_slice(), 0, edit.replacement.len());
        proof {
            let put = edit@.replacement;
            assert(put.subrange(0, put.len() as int) =~= put);
            let kept = all.subrange(cursor as int, edit.start as int);
            assert(views(out@) == before + kept + put);
            match spliced(all, rest.drop_first(), edit@.end) {
                Some(t) => {
                    assert(before + (kept + put + t) =~= before + kept + put + t);
                },
                None => {},
            }
        }
        cursor = edit.end;
        i = i + 1;
    }
    copy_bytes(&mut out, items, cursor, items.len());
    proof {
        assert(all.skip(cursor as int) =~= all.subrange(cursor as int, all.len() as int));
    }
    Some(out)
}

} // verus!
