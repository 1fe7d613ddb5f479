//! Putting rows in the order of a sort.

use crate::order::{lemma_cells_total, lemma_cells_transitive, SortSpec};
use crate::row::{row_views, rows_in_order, Row, RowStore};
use crate::snapshot::distinct_keys;
use vstd::prelude::*;

verus! {

/// Every row may stand before every later row under `sort`.
pub open spec fn sorted_by<S: RowStore>(
    rows: Seq<(<S::Key as View>::V, <S::Value as View>::V)>,
    sort: SortSpec,
) -> bool {
    forall|i: int, j: int|
        0 <= i < j < rows.len() ==> rows_in_order::<S>(#[trigger] rows[i], #[trigger] rows[j], sort)
}

/// The position at which the row with key `key` stands in `rows`.
pub open spec fn position_of<K, V>(rows: Seq<(K, V)>, key: K) -> int {
    choose|i: int| 0 <= i < rows.len() && #[trigger] rows[i].0 == key
}

/// Rows that tie under `sort` stand in `after` in the order in which they
/// stood in `before`.
pub open spec fn ties_keep_order<S: RowStore>(
    before: Seq<(<S::Key as View>::V, <S::Value as View>::V)>,
    after: Seq<(<S::Key as View>::V, <S::Value as View>::V)>,
    sort: SortSpec,
) -> bool {
    forall|i: int, j: int|
        0 <= i < j < after.len() && rows_in_order::<S>(#[trigger] after[j], #[trigger] after[i], sort)
            ==> position_of(before, after[i].0) < position_of(before, after[j].0)
}

/// Among rows with distinct keys, a row stands at the position of its key.
pub proof fn lemma_position_of<K, V>(rows: Seq<(K, V)>, i: int)
    requires
        distinct_keys(rows),
        0 <= i < rows.len(),
    ensures
        position_of(rows, rows[i].0) == i,
{
}

/// Sorts `rows` under `sort`, keeping rows that tie in the order in which
/// they came. Rows that are already in order stay as they are.
///
/// Each row is moved back from the end past the rows that must follow it,
/// so rows that are nearly in order take little work.
pub fn sort_rows<S: RowStore>(rows: Vec<Row<S::Key, S::Value>>, sort: SortSpec) -> (sorted: Vec<
    Row<S::Key, S::Value>,
>)
    requires
        distinct_keys(row_views(rows@)),
    ensures
        sorted_by::<S>(row_views(sorted@), sort),
        row_views(sorted@).to_multiset() == row_views(rows@).to_multiset(),
        ties_keep_order::<S>(row_views(rows@), row_views(sorted@), sort),
        sorted_by::<S>(row_views(rows@), sort) ==> row_views(sorted@) == row_views(rows@),
{
    let ghost unsorted = row_views(rows@);
    let mut sorted: Vec<Row<S::Key, S::Value>> = Vec::new();
    assert(row_views(sorted@) =~= unsorted.take(0));
    for row in it: rows.into_iter()
        invariant
            it.seq().len() == unsorted.len(),
            row_views(it.seq()) == unsorted,
            distinct_keys(unsorted),
            sorted_by::<S>(row_views(sorted@), sort),
            row_views(sorted@).to_multiset() == unsorted.take(it.index() as int).to_multiset(),
            forall|x: int|
                0 <= x < sorted@.len() ==> position_of(
                    unsorted,
                    (#[trigger] row_views(sorted@)[x]).0,
                ) < it.index(),
            ties_keep_order::<S>(unsorted, row_views(sorted@), sort),
            sorted_by::<S>(unsorted, sort) ==> row_views(sorted@) == unsorted.take(
                it.index() as int,
            ),
    {
        let ghost i = it.index() as int;
        let ghost done = row_views(sorted@);
        assert(row@ == unsorted[i]);
        let mut at: usize = sorted.len();
        while at > 0 && !S::in_order(&sorted[at - 1], &row, sort)
            invariant
                at <= sorted@.len(),
                forall|k: int|
                    at <= k < sorted@.len() ==> !rows_in_order::<S>(
                        #[trigger] row_views(sorted@)[k],
                        row@,
                        sort,
                    ),
            decreases at,
        {
            at -= 1;
        }
        sorted.insert(at, row);
        proof {
            let now = row_views(sorted@);
            let moved = unsorted[i];
            assert(now =~= done.insert(at as int, moved));
            lemma_position_of(unsorted, i);
            assert forall|p: int, q: int| 0 <= p < q < now.len() implies rows_in_order::<S>(
                #[trigger] now[p],
                #[trigger] now[q],
                sort,
            ) by {
                if q == at {
                    if p < at - 1 {
                        lemma_cells_transitive(
                            S::cell(done[p].0, done[p].1, sort.column as int),
                            S::cell(done[at - 1].0, done[at - 1].1, sort.column as int),
                            S::cell(moved.0, moved.1, sort.column as int),
                            sort.direction,
                        );
                    }
                } else if p == at {
                    lemma_cells_total(
                        S::cell(moved.0, moved.1, sort.column as int),
                        S::cell(done[q - 1].0, done[q - 1].1, sort.column as int),
                        sort.direction,
                    );
                } else {
                    let a = if p < at { p } else { p - 1 };
                    let b = if q < at { q } else { q - 1 };
                    assert(rows_in_order::<S>(done[a], done[b], sort));
                }
            }
            assert forall|x: int| 0 <= x < now.len() implies position_of(
                unsorted,
                (#[trigger] now[x]).0,
            ) < i + 1 by {
                if x != at {
                    let y = if x < at { x } else { x - 1 };
                    assert(now[x] == done[y]);
                }
            }
            assert forall|p: int, q: int|
                0 <= p < q < now.len() && rows_in_order::<S>(
                    #[trigger] now[q],
                    #[trigger] now[p],
                    sort,
                ) implies position_of(unsorted, now[p].0) < position_of(unsorted, now[q].0) by {
                if p == at {
                    assert(now[q] == done[q - 1]);
                } else if q == at {
                    assert(now[p] == done[p]);
                } else {
                    let a = if p < at { p } else { p - 1 };
                    let b = if q < at { q } else { q - 1 };
                    assert(now[p] == done[a] && now[q] == done[b]);
                }
            }
            assert(unsorted.take(i + 1) =~= unsorted.take(i).push(moved));
            assert(now.to_multiset() =~= unsorted.take(i + 1).to_multiset()) by {
                vstd::seq_lib::to_multiset_build(unsorted.take(i), moved);
                vstd::seq_lib::to_multiset_insert(done, at as int, moved);
            }
            if sorted_by::<S>(unsorted, sort) {
                if at < done.len() {
                    assert(done[done.len() - 1] == unsorted[i - 1]);
                    assert(rows_in_order::<S>(unsorted[i - 1], unsorted[i], sort));
                }
                assert(now =~= unsorted.take(i + 1));
            }
        }
    }
    assert(unsorted.take(unsorted.len() as int) =~= unsorted);
    sorted
}

} // verus!
