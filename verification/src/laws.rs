//! Proved laws of the projection engine.
//!
//! These relate the specification parser's bitmap model to the cut
//! projection: cut never reorders, a full range is the identity, and cutting
//! an already-cut row with a covering bitmap changes nothing.

use vstd::prelude::*;

use crate::parser::bitmap_set;
use crate::parser::bitmap_set_range;
use crate::selector::selected;
use crate::selector::spec_cut;

verus! {

/// The 0-based positions below `n` that the bitmap selects, in increasing
/// order.
pub open spec fn selected_indices(bm: Seq<usize>, n: int) -> Seq<int>
    decreases n,
{
    if n <= 0 {
        Seq::empty()
    } else if selected(bm, n - 1) {
        selected_indices(bm, n - 1).push(n - 1)
    } else {
        selected_indices(bm, n - 1)
    }
}

proof fn lemma_selected_indices_facts(bm: Seq<usize>, n: int)
    ensures
        forall|a: int|
            0 <= a < selected_indices(bm, n).len() ==> 0 <= #[trigger] selected_indices(bm, n)[a]
                < n && selected(bm, selected_indices(bm, n)[a]),
        forall|a: int, b: int|
            0 <= a < b < selected_indices(bm, n).len() ==> #[trigger] selected_indices(bm, n)[a]
                < #[trigger] selected_indices(bm, n)[b],
        forall|i: int| 0 <= i < n && selected(bm, i) ==> selected_indices(bm, n).contains(i),
    decreases n,
{
    if n > 0 {
        lemma_selected_indices_facts(bm, n - 1);
        let prev = selected_indices(bm, n - 1);
        let cur = selected_indices(bm, n);
        assert forall|i: int| 0 <= i < n && selected(bm, i) implies cur.contains(i) by {
            if i < n - 1 {
                let a = choose|a: int| 0 <= a < prev.len() && prev[a] == i;
                assert(cur[a] == i);
            } else {
                assert(cur[cur.len() - 1] == i);
            }
        }
    }
}

proof fn lemma_cut_is_selected_subsequence(bm: Seq<usize>, row: Seq<Seq<u8>>)
    ensures
        spec_cut(bm, row) == selected_indices(bm, row.len() as int).map_values(
            |i: int| row[i],
        ),
    decreases row.len(),
{
    let n = row.len() as int;
    if n == 0 {
        assert(spec_cut(bm, row) =~~= selected_indices(bm, 0).map_values(|i: int| row[i]));
    } else {
        let head = row.drop_last();
        lemma_cut_is_selected_subsequence(bm, head);
        lemma_selected_indices_facts(bm, n - 1);
        let prev = selected_indices(bm, n - 1);
        assert(prev.map_values(|i: int| head[i]) =~~= prev.map_values(|i: int| row[i])) by {
            assert forall|a: int| #![trigger prev[a]] 0 <= a < prev.len() implies prev.map_values(
                |i: int| head[i],
            )[a] == prev.map_values(|i: int| row[i])[a] by {
                assert(head[prev[a]] == row[prev[a]]);
            }
        }
        assert(spec_cut(bm, row) =~~= selected_indices(bm, n).map_values(|i: int| row[i]));
    }
}

/// Law: cut never reorders. The output is the input's fields taken at the
/// strictly increasing sequence of selected positions — a subsequence of the
/// input field order limited to the selected columns, with every selected
/// column below the record's width present exactly in input order.
pub proof fn lemma_cut_preserves_order(bm: Seq<usize>, row: Seq<Seq<u8>>)
    ensures
        ({
            let idx = selected_indices(bm, row.len() as int);
            &&& spec_cut(bm, row) == idx.map_values(|i: int| row[i])
            &&& forall|a: int|
                0 <= a < idx.len() ==> 0 <= #[trigger] idx[a] < row.len() && selected(bm, idx[a])
            &&& forall|a: int, b: int|
                0 <= a < b < idx.len() ==> #[trigger] idx[a] < #[trigger] idx[b]
            &&& forall|i: int| 0 <= i < row.len() && selected(bm, i) ==> idx.contains(i)
        }),
{
    lemma_cut_is_selected_subsequence(bm, row);
    lemma_selected_indices_facts(bm, row.len() as int);
}

/// Law: a bitmap that selects every position of a row projects the row to
/// itself.
pub proof fn lemma_cut_identity(bm: Seq<usize>, row: Seq<Seq<u8>>)
    requires
        forall|i: int| 0 <= i < row.len() ==> selected(bm, i),
    ensures
        spec_cut(bm, row) == row,
    decreases row.len(),
{
    if row.len() > 0 {
        lemma_cut_identity(bm, row.drop_last());
    }
    assert(spec_cut(bm, row) =~~= row);
}

/// The bitmap built from the full range `1-n` has length `n` and selects
/// every position below `n`.
pub proof fn lemma_full_range_selects_all(n: int)
    requires
        n >= 1,
    ensures
        bitmap_set_range(Seq::empty(), 1, n).len() == n,
        forall|i: int| 0 <= i < n ==> selected(bitmap_set_range(Seq::empty(), 1, n), i),
    decreases n,
{
    if n == 1 {
        assert(bitmap_set_range(Seq::empty(), 1, 0) == Seq::<usize>::empty());
        assert(bitmap_set(Seq::<usize>::empty(), 1).len() == 1);
        assert(selected(bitmap_set(Seq::<usize>::empty(), 1), 0));
    } else {
        lemma_full_range_selects_all(n - 1);
        let prev = bitmap_set_range(Seq::empty(), 1, n - 1);
        let cur = bitmap_set(prev, n);
        let grown = prev + Seq::new((n - prev.len()) as nat, |j: int| 0usize);
        assert(cur == grown.update(n - 1, 1usize));
        assert(grown.len() == n);
        assert forall|i: int| 0 <= i < n implies selected(cur, i) by {
            if i < n - 1 {
                assert(selected(prev, i));
                assert(grown[i] == prev[i]);
                assert(cur[i] == grown[i]);
            } else {
                assert(cur[i] == 1usize);
            }
        }
    }
}

/// Law (round trip): cutting an `n`-column row with the bitmap of the full
/// column range `1-n` yields the original row unchanged.
pub proof fn lemma_cut_full_range_round_trip(row: Seq<Seq<u8>>)
    requires
        row.len() >= 1,
    ensures
        spec_cut(bitmap_set_range(Seq::empty(), 1, row.len() as int), row) == row,
{
    lemma_full_range_selects_all(row.len() as int);
    lemma_cut_identity(bitmap_set_range(Seq::empty(), 1, row.len() as int), row);
}

/// Law (idempotence): cutting a row and then cutting the result with any
/// identity bitmap that covers all output columns — the full range over the
/// first cut's output — gives the same output as cutting once.
pub proof fn lemma_cut_idempotent(bm: Seq<usize>, row: Seq<Seq<u8>>, bm2: Seq<usize>)
    requires
        forall|i: int| 0 <= i < spec_cut(bm, row).len() ==> selected(bm2, i),
    ensures
        spec_cut(bm2, spec_cut(bm, row)) == spec_cut(bm, row),
{
    lemma_cut_identity(bm2, spec_cut(bm, row));
}

} // verus!
