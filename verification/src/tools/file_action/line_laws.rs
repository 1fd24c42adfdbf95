//! What line instructions keep: no line is lost or doubled but by a deletion or
//! an appended block, and lines that no instruction names stay as they were.

use crate::tools::file_action::line_patch::{
    boundary_of, first_op_fault, first_taken, lemma_ops_fit, new_text, op_fits, patch_fault,
    put_behind, puts_behind, removal_at, rewritten, stays, takes_away, LinePatchOpView, LineRemoval,
};
use vstd::multiset::Multiset;
use vstd::prelude::*;

verus! {

broadcast use {
    vstd::multiset::group_multiset_axioms,
    vstd::multiset::group_multiset_properties,
    vstd::seq_lib::group_to_multiset_ensures,
};

/// The texts of the lines up to `k` that `first` leaves in place.
spec fn kept(
    lines: Seq<Seq<char>>,
    ops: Seq<LinePatchOpView>,
    first: Seq<LinePatchOpView>,
    k: int,
) -> Multiset<Seq<char>>
    decreases k,
{
    if k <= 0 {
        Multiset::empty()
    } else {
        let below = kept(lines, ops, first, k - 1);
        if removal_at(first, k) is None {
            below.insert(new_text(lines, ops, k))
        } else {
            below
        }
    }
}

/// The texts of the lines up to `k` that are not deleted.
pub open spec fn undeleted(
    lines: Seq<Seq<char>>,
    ops: Seq<LinePatchOpView>,
    first: Seq<LinePatchOpView>,
    k: int,
) -> Multiset<Seq<char>>
    decreases k,
{
    if k <= 0 {
        Multiset::empty()
    } else {
        let below = undeleted(lines, ops, first, k - 1);
        if removal_at(first, k) == Some(LineRemoval::Delete) {
            below
        } else {
            below.insert(new_text(lines, ops, k))
        }
    }
}

/// The lines that append blocks bring.
pub open spec fn appended(ops: Seq<LinePatchOpView>) -> Multiset<Seq<char>>
    decreases ops.len(),
{
    if ops.len() == 0 {
        Multiset::empty()
    } else {
        let before = appended(ops.drop_last());
        match ops.last() {
            LinePatchOpView::Append { lines, .. } => before.add(lines.to_multiset()),
            _ => before,
        }
    }
}

/// What `first` puts behind the lines up to `k`.
spec fn placed(
    lines: Seq<Seq<char>>,
    ops: Seq<LinePatchOpView>,
    first: Seq<LinePatchOpView>,
    k: int,
) -> Multiset<Seq<char>>
    decreases k + 1,
{
    if k < 0 {
        Multiset::empty()
    } else {
        placed(lines, ops, first, k - 1).add(put_behind(first, lines, ops, k).to_multiset())
    }
}

/// The texts of the lines `s` to `e`.
spec fn range_texts(lines: Seq<Seq<char>>, ops: Seq<LinePatchOpView>, s: int, e: int) -> Multiset<
    Seq<char>,
>
    decreases e - s + 1,
{
    if s > e {
        Multiset::empty()
    } else {
        range_texts(lines, ops, s, e - 1).insert(new_text(lines, ops, e))
    }
}

proof fn lemma_add_multiset(a: Seq<Seq<char>>, b: Seq<Seq<char>>)
    ensures
        (a + b).to_multiset() == a.to_multiset().add(b.to_multiset()),
    decreases b.len(),
{
    if b.len() == 0 {
        assert(a + b =~= a);
        assert(b.to_multiset() =~= Multiset::empty());
        assert(a.to_multiset().add(b.to_multiset()) =~= a.to_multiset());
    } else {
        lemma_add_multiset(a, b.drop_last());
        assert(a + b =~= (a + b.drop_last()).push(b.last()));
        assert(b =~= b.drop_last().push(b.last()));
        assert((a + b).to_multiset() =~= a.to_multiset().add(b.to_multiset()));
    }
}

proof fn lemma_rewritten_multiset(lines: Seq<Seq<char>>, ops: Seq<LinePatchOpView>, k: int)
    requires
        k >= 0,
    ensures
        rewritten(lines, ops, k).to_multiset() == kept(lines, ops, ops, k).add(
            placed(lines, ops, ops, k),
        ),
    decreases k,
{
    if k == 0 {
        assert(placed(lines, ops, ops, -1) =~= Multiset::empty());
        assert(kept(lines, ops, ops, 0) =~= Multiset::empty());
        assert(rewritten(lines, ops, 0).to_multiset() =~= kept(lines, ops, ops, 0).add(
            placed(lines, ops, ops, 0),
        ));
    } else {
        lemma_rewritten_multiset(lines, ops, k - 1);
        let front = rewritten(lines, ops, k - 1);
        let here = stays(lines, ops, k);
        let behind = put_behind(ops, lines, ops, k);
        lemma_add_multiset(front, here);
        lemma_add_multiset(front + here, behind);
        if removal_at(ops, k) is None {
            assert(here =~= Seq::<Seq<char>>::empty().push(new_text(lines, ops, k)));
            assert(here.to_multiset() =~= Multiset::empty().insert(new_text(lines, ops, k)));
        } else {
            assert(here.to_multiset() =~= Multiset::empty());
        }
        assert(rewritten(lines, ops, k).to_multiset() =~= kept(lines, ops, ops, k).add(
            placed(lines, ops, ops, k),
        ));
    }
}

/// What an instruction puts behind the lines up to `k` adds to what the earlier
/// ones put there.
proof fn lemma_placed_step(
    lines: Seq<Seq<char>>,
    ops: Seq<LinePatchOpView>,
    first: Seq<LinePatchOpView>,
    k: int,
    at: int,
    block: Seq<Seq<char>>,
)
    requires
        first.len() > 0,
        k >= -1,
        at >= 0,
        forall|b: int| #[trigger]
            puts_behind(first.last(), lines, ops, b) == if b == at {
                block
            } else {
                seq![]
            },
    ensures
        placed(lines, ops, first, k) == placed(lines, ops, first.drop_last(), k).add(
            if at <= k {
                block.to_multiset()
            } else {
                Multiset::empty()
            },
        ),
    decreases k + 1,
{
    let before = first.drop_last();
    if k == -1 {
        assert(placed(lines, ops, first, k) =~= Multiset::empty());
    } else {
        lemma_placed_step(lines, ops, first, k - 1, at, block);
        let here = puts_behind(first.last(), lines, ops, k);
        lemma_add_multiset(put_behind(before, lines, ops, k), here);
        if k != at {
            assert(here =~= seq![]);
            assert(here.to_multiset() =~= Multiset::empty());
        }
        assert(placed(lines, ops, first, k) =~= placed(lines, ops, before, k).add(
            if at <= k {
                block.to_multiset()
            } else {
                Multiset::empty()
            },
        ));
    }
}

proof fn lemma_placed_same(
    lines: Seq<Seq<char>>,
    ops: Seq<LinePatchOpView>,
    first: Seq<LinePatchOpView>,
    k: int,
)
    requires
        first.len() > 0,
        k >= -1,
        forall|b: int| #[trigger] puts_behind(first.last(), lines, ops, b).len() == 0,
    ensures
        placed(lines, ops, first, k) == placed(lines, ops, first.drop_last(), k),
    decreases k + 1,
{
    if k >= 0 {
        lemma_placed_same(lines, ops, first, k - 1);
        let here = puts_behind(first.last(), lines, ops, k);
        assert(here.len() == 0);
        assert(put_behind(first, lines, ops, k) =~= put_behind(
            first.drop_last(),
            lines,
            ops,
            k,
        ));
    }
}

proof fn lemma_first_taken(ops: Seq<LinePatchOpView>, s: int, e: int, i: int)
    requires
        first_taken(ops, s, e) is None,
        s <= i <= e,
    ensures
        removal_at(ops, i) is None,
    decreases e - s + 1,
{
    if i > s {
        lemma_first_taken(ops, s + 1, e, i);
    }
}

/// Taking the lines `s` to `e` away takes their texts from what is kept.
proof fn lemma_kept_step(
    lines: Seq<Seq<char>>,
    ops: Seq<LinePatchOpView>,
    first: Seq<LinePatchOpView>,
    s: int,
    e: int,
    k: int,
)
    requires
        first.len() > 0,
        1 <= s <= e,
        0 <= k,
        first_taken(first.drop_last(), s, e) is None,
        forall|i: int| #[trigger] takes_away(first.last(), i) is Some <==> s <= i <= e,
    ensures
        kept(lines, ops, first, k).add(
            range_texts(
                lines,
                ops,
                s,
                if k < e {
                    k
                } else {
                    e
                },
            ),
        ) == kept(lines, ops, first.drop_last(), k),
    decreases k,
{
    let before = first.drop_last();
    if k == 0 {
        assert(range_texts(lines, ops, s, 0) =~= Multiset::empty());
        assert(kept(lines, ops, first, 0).add(Multiset::empty()) =~= kept(lines, ops, before, 0));
    } else {
        lemma_kept_step(lines, ops, first, s, e, k - 1);
        assert(takes_away(first.last(), k) is Some <==> s <= k <= e);
        if s <= k <= e {
            lemma_first_taken(before, s, e, k);
        }
        let top: int = if k < e {
            k
        } else {
            e
        };
        if k < s {
            assert(range_texts(lines, ops, s, k) =~= Multiset::empty());
            assert(range_texts(lines, ops, s, k - 1) =~= Multiset::empty());
        }
        assert(kept(lines, ops, first, k).add(range_texts(lines, ops, s, top)) =~= kept(
            lines,
            ops,
            before,
            k,
        ));
    }
}

proof fn lemma_kept_same(
    lines: Seq<Seq<char>>,
    ops: Seq<LinePatchOpView>,
    first: Seq<LinePatchOpView>,
    k: int,
)
    requires
        first.len() > 0,
        k >= 0,
        forall|i: int| #[trigger] takes_away(first.last(), i) is None,
    ensures
        kept(lines, ops, first, k) == kept(lines, ops, first.drop_last(), k),
        undeleted(lines, ops, first, k) == undeleted(lines, ops, first.drop_last(), k),
    decreases k,
{
    if k > 0 {
        lemma_kept_same(lines, ops, first, k - 1);
        assert(takes_away(first.last(), k) is None);
    }
}

proof fn lemma_undeleted_step(
    lines: Seq<Seq<char>>,
    ops: Seq<LinePatchOpView>,
    first: Seq<LinePatchOpView>,
    s: int,
    e: int,
    k: int,
)
    requires
        first.len() > 0,
        1 <= s <= e,
        0 <= k,
        first_taken(first.drop_last(), s, e) is None,
        forall|i: int| #[trigger]
            takes_away(first.last(), i) == if s <= i <= e {
                Some(LineRemoval::Delete)
            } else {
                None
            },
    ensures
        undeleted(lines, ops, first, k).add(
            range_texts(
                lines,
                ops,
                s,
                if k < e {
                    k
                } else {
                    e
                },
            ),
        ) == undeleted(lines, ops, first.drop_last(), k),
    decreases k,
{
    let before = first.drop_last();
    if k == 0 {
        assert(range_texts(lines, ops, s, 0) =~= Multiset::empty());
        assert(undeleted(lines, ops, first, 0).add(Multiset::empty()) =~= undeleted(
            lines,
            ops,
            before,
            0,
        ));
    } else {
        lemma_undeleted_step(lines, ops, first, s, e, k - 1);
        assert(takes_away(first.last(), k) is Some <==> s <= k <= e);
        if s <= k <= e {
            lemma_first_taken(before, s, e, k);
        }
        let top: int = if k < e {
            k
        } else {
            e
        };
        if k < s {
            assert(range_texts(lines, ops, s, k) =~= Multiset::empty());
            assert(range_texts(lines, ops, s, k - 1) =~= Multiset::empty());
        }
        assert(undeleted(lines, ops, first, k).add(range_texts(lines, ops, s, top)) =~= undeleted(
            lines,
            ops,
            before,
            k,
        ));
    }
}

/// Moving lines deletes none.
proof fn lemma_undeleted_move(
    lines: Seq<Seq<char>>,
    ops: Seq<LinePatchOpView>,
    first: Seq<LinePatchOpView>,
    s: int,
    e: int,
    k: int,
)
    requires
        first.len() > 0,
        0 <= k,
        first_taken(first.drop_last(), s, e) is None,
        forall|i: int| #[trigger]
            takes_away(first.last(), i) == if s <= i <= e {
                Some(LineRemoval::Move)
            } else {
                None
            },
    ensures
        undeleted(lines, ops, first, k) == undeleted(lines, ops, first.drop_last(), k),
    decreases k,
{
    if k > 0 {
        lemma_undeleted_move(lines, ops, first, s, e, k - 1);
        assert(takes_away(first.last(), k) is Some <==> s <= k <= e);
        if s <= k <= e {
            lemma_first_taken(first.drop_last(), s, e, k);
        }
    }
}

proof fn lemma_range_texts_seq(lines: Seq<Seq<char>>, ops: Seq<LinePatchOpView>, s: int, e: int)
    requires
        s <= e + 1,
    ensures
        Seq::new((e - s + 1) as nat, |k: int| new_text(lines, ops, s + k)).to_multiset()
            == range_texts(lines, ops, s, e),
    decreases e - s + 1,
{
    let all = Seq::new((e - s + 1) as nat, |k: int| new_text(lines, ops, s + k));
    if s > e {
        assert(all =~= seq![]);
        assert(all.to_multiset() =~= Multiset::empty());
    } else {
        lemma_range_texts_seq(lines, ops, s, e - 1);
        let most = Seq::new((e - 1 - s + 1) as nat, |k: int| new_text(lines, ops, s + k));
        assert(all =~= most.push(new_text(lines, ops, e)));
        assert(all.to_multiset() =~= range_texts(lines, ops, s, e));
    }
}

proof fn lemma_conserved_by_prefix(
    lines: Seq<Seq<char>>,
    ops: Seq<LinePatchOpView>,
    first: Seq<LinePatchOpView>,
)
    requires
        first_op_fault(first, lines.len() as int) is None,
    ensures
        kept(lines, ops, first, lines.len() as int).add(
            placed(lines, ops, first, lines.len() as int),
        ) == undeleted(lines, ops, first, lines.len() as int).add(appended(first)),
    decreases first.len(),
{
    let n = lines.len() as int;
    if first.len() == 0 {
        lemma_nothing_done(lines, ops, first, n);
        assert(kept(lines, ops, first, n).add(Multiset::empty()) =~= undeleted(
            lines,
            ops,
            first,
            n,
        ).add(appended(first)));
    } else {
        let before = first.drop_last();
        let op = first.last();
        lemma_conserved_by_prefix(lines, ops, before);
        lemma_ops_fit(first, n);
        assert(op_fits(first[first.len() - 1], n));
        match op {
            LinePatchOpView::Delete { start, end } => {
                let (s, e) = (start as int, end as int);
                lemma_kept_step(lines, ops, first, s, e, n);
                lemma_undeleted_step(lines, ops, first, s, e, n);
                lemma_placed_same(lines, ops, first, n);
                lemma_cancel(
                    kept(lines, ops, first, n),
                    placed(lines, ops, first, n),
                    undeleted(lines, ops, first, n),
                    appended(first),
                    range_texts(lines, ops, s, e),
                );
            },
            LinePatchOpView::Move { start, end, after } => {
                let (s, e) = (start as int, end as int);
                let at = boundary_of(after, n);
                let block = Seq::new((end - start + 1) as nat, |k: int| new_text(lines, ops, start + k));
                lemma_kept_step(lines, ops, first, s, e, n);
                lemma_undeleted_move(lines, ops, first, s, e, n);
                lemma_placed_step(lines, ops, first, n, at, block);
                lemma_range_texts_seq(lines, ops, s, e);
                assert(kept(lines, ops, first, n).add(placed(lines, ops, first, n)) =~= kept(
                    lines,
                    ops,
                    before,
                    n,
                ).add(placed(lines, ops, before, n)));
            },
            LinePatchOpView::Append { after, lines: block } => {
                let at = boundary_of(after, n);
                lemma_kept_same(lines, ops, first, n);
                lemma_placed_step(lines, ops, first, n, at, block);
                let more = block.to_multiset();
                assert(kept(lines, ops, first, n).add(placed(lines, ops, before, n).add(more))
                    =~= kept(lines, ops, before, n).add(placed(lines, ops, before, n)).add(more));
                assert(undeleted(lines, ops, first, n).add(appended(before).add(more))
                    =~= undeleted(lines, ops, before, n).add(appended(before)).add(more));
            },
            LinePatchOpView::Replace { .. } => {
                lemma_kept_same(lines, ops, first, n);
                lemma_placed_same(lines, ops, first, n);
            },
        }
    }
}

proof fn lemma_cancel(
    k: Multiset<Seq<char>>,
    p: Multiset<Seq<char>>,
    u: Multiset<Seq<char>>,
    a: Multiset<Seq<char>>,
    r: Multiset<Seq<char>>,
)
    requires
        k.add(r).add(p) == u.add(r).add(a),
    ensures
        k.add(p) == u.add(a),
{
    assert forall|x: Seq<char>| #[trigger] k.add(p).count(x) == u.add(a).count(x) by {
        assert(k.add(r).add(p).count(x) == k.add(r).count(x) + p.count(x));
        assert(k.add(r).count(x) == k.count(x) + r.count(x));
        assert(u.add(r).add(a).count(x) == u.add(r).count(x) + a.count(x));
        assert(u.add(r).count(x) == u.count(x) + r.count(x));
    }
    assert(k.add(p) =~= u.add(a));
}

proof fn lemma_nothing_done(
    lines: Seq<Seq<char>>,
    ops: Seq<LinePatchOpView>,
    first: Seq<LinePatchOpView>,
    k: int,
)
    requires
        first.len() == 0,
        k >= -1,
    ensures
        kept(lines, ops, first, k) == undeleted(lines, ops, first, k),
        placed(lines, ops, first, k) == Multiset::<Seq<char>>::empty(),
    decreases k + 1,
{
    if k >= 0 {
        lemma_nothing_done(lines, ops, first, k - 1);
        let here = put_behind(first, lines, ops, k);
        assert(here =~= seq![]);
        assert(here.to_multiset() =~= Multiset::empty());
        assert(placed(lines, ops, first, k) =~= Multiset::empty());
    }
}

/// A patch that applies loses no line but those it deletes, gains none but those
/// it appends, and gives each line it keeps or moves exactly one place.
pub proof fn lemma_lines_conserved(lines: Seq<Seq<char>>, ops: Seq<LinePatchOpView>)
    requires
        patch_fault(ops, lines.len() as int) is None,
    ensures
        rewritten(lines, ops, lines.len() as int).to_multiset() == undeleted(
            lines,
            ops,
            ops,
            lines.len() as int,
        ).add(appended(ops)),
{
    lemma_rewritten_multiset(lines, ops, lines.len() as int);
    lemma_conserved_by_prefix(lines, ops, ops);
}

pub open spec fn is_replace(op: LinePatchOpView) -> bool {
    op is Replace
}

proof fn lemma_replace_only(
    lines: Seq<Seq<char>>,
    ops: Seq<LinePatchOpView>,
    first: Seq<LinePatchOpView>,
    i: int,
)
    requires
        forall|j: int| 0 <= j < first.len() ==> is_replace(#[trigger] first[j]),
    ensures
        removal_at(first, i) is None,
        put_behind(first, lines, ops, i).len() == 0,
    decreases first.len(),
{
    if first.len() > 0 {
        assert(is_replace(first[first.len() - 1]));
        assert forall|j: int| 0 <= j < first.drop_last().len() implies is_replace(
            #[trigger] first.drop_last()[j],
        ) by {
            assert(first[j] == first.drop_last()[j]);
        }
        lemma_replace_only(lines, ops, first.drop_last(), i);
    }
}

/// A patch of `n:text` instructions alone keeps the number of lines, and every
/// line that it does not name.
pub proof fn lemma_replacing_keeps_lines(lines: Seq<Seq<char>>, ops: Seq<LinePatchOpView>, k: int)
    requires
        forall|j: int| 0 <= j < ops.len() ==> is_replace(#[trigger] ops[j]),
        0 <= k <= lines.len(),
    ensures
        rewritten(lines, ops, k).len() == k,
        forall|i: int|
            0 <= i < k ==> #[trigger] rewritten(lines, ops, k)[i] == new_text(lines, ops, i + 1),
    decreases k,
{
    lemma_replace_only(lines, ops, ops, k);
    if k > 0 {
        lemma_replacing_keeps_lines(lines, ops, k - 1);
    }
}

} // verus!
