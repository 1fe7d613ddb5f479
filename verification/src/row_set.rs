//! The ordered, sortable set of rows that a table shows, and its
//! reconciliation against a snapshot.

use crate::key::RowKey;
use crate::order::{SortDirection, SortSpec};
use crate::row::{row_views, Row, RowStore};
use crate::snapshot::{distinct_keys, lemma_pairs_to_map, pairs_to_map, SnapshotMap};
use crate::sorting::{sort_rows, sorted_by, ties_keep_order};
use vstd::prelude::*;

verus! {

/// The sort that a click on the header of `column` calls for.
pub open spec fn toggled_sort(active: Option<SortSpec>, column: usize) -> SortSpec {
    if active == Some(SortSpec { column, direction: SortDirection::Ascending }) {
        SortSpec { column, direction: SortDirection::Descending }
    } else {
        SortSpec { column, direction: SortDirection::Ascending }
    }
}

/// A row set as a value: the rows in display order, and the active sort.
pub struct RowSetView<K, V> {
    pub rows: Seq<(K, V)>,
    pub sort: Option<SortSpec>,
}

/// The live, ordered collection of rows behind one table, with the sort
/// that the user asked for, if any.
pub struct RowSet<K: RowKey, V: View> {
    rows: Vec<Row<K, V>>,
    sort: Option<SortSpec>,
}

impl<K: RowKey, V: View> View for RowSet<K, V> {
    type V = RowSetView<K::V, V::V>;

    closed spec fn view(&self) -> RowSetView<K::V, V::V> {
        RowSetView { rows: row_views(self.rows@), sort: self.sort }
    }
}

impl<K: RowKey, V: View> RowSet<K, V> {
    /// No key has two rows.
    pub open spec fn wf(&self) -> bool {
        distinct_keys(self@.rows)
    }

    /// An empty, unsorted row set.
    pub fn new() -> (row_set: Self)
        ensures
            row_set.wf(),
            row_set@.rows == Seq::<(K::V, V::V)>::empty(),
            row_set@.sort == None::<SortSpec>,
    {
        let row_set = RowSet { rows: Vec::new(), sort: None };
        assert(row_set@.rows =~= Seq::<(K::V, V::V)>::empty());
        row_set
    }

    /// The number of rows.
    pub fn len(&self) -> (n: usize)
        ensures
            n == self@.rows.len(),
    {
        self.rows.len()
    }

    /// The row at position `i` in display order.
    pub fn row(&self, i: usize) -> (row: &Row<K, V>)
        requires
            i < self@.rows.len(),
        ensures
            row@ == self@.rows[i as int],
    {
        &self.rows[i]
    }

    /// The active sort, if any.
    pub fn sort(&self) -> (sort: Option<SortSpec>)
        ensures
            sort == self@.sort,
    {
        self.sort
    }

    /// Asks for the rows to be sorted by `column` in `direction`. The rows
    /// stay where they are until the next reconciliation, which honours the
    /// request.
    pub fn request_sort(&mut self, column: usize, direction: SortDirection)
        ensures
            final(self)@.rows == old(self)@.rows,
            final(self)@.sort == Some(SortSpec { column, direction }),
    {
        self.sort = Some(SortSpec { column, direction });
    }

    /// Asks for the sort that a click on the header of `column` calls for:
    /// descending if the rows are sorted by that column in ascending order,
    /// ascending otherwise. Returns the sort asked for.
    pub fn toggle_sort(&mut self, column: usize) -> (sort: SortSpec)
        ensures
            final(self)@.rows == old(self)@.rows,
            final(self)@.sort == Some(sort),
            sort == toggled_sort(old(self)@.sort, column),
    {
        let direction = match self.sort {
            Some(SortSpec { column: active, direction: SortDirection::Ascending }) => {
                if active == column {
                    SortDirection::Descending
                } else {
                    SortDirection::Ascending
                }
            },
            _ => SortDirection::Ascending,
        };
        let sort = SortSpec { column, direction };
        self.sort = Some(sort);
        sort
    }

    /// Withdraws the sort. The rows stay where they are.
    pub fn clear_sort(&mut self)
        ensures
            final(self)@.rows == old(self)@.rows,
            final(self)@.sort == None::<SortSpec>,
    {
        self.sort = None;
    }
}

/// Holds of the rows whose key the snapshot still has.
pub open spec fn is_current<S: RowStore>(
    snapshot: Map<<S::Key as View>::V, <S::Source as View>::V>,
) -> spec_fn((<S::Key as View>::V, <S::Value as View>::V)) -> bool {
    |row: (<S::Key as View>::V, <S::Value as View>::V)| snapshot.contains_key(row.0)
}

/// Gives a row the column values that the snapshot holds for its key.
pub open spec fn refreshed<S: RowStore>(
    snapshot: Map<<S::Key as View>::V, <S::Source as View>::V>,
) -> spec_fn((<S::Key as View>::V, <S::Value as View>::V)) -> (
    <S::Key as View>::V,
    <S::Value as View>::V,
) {
    |row: (<S::Key as View>::V, <S::Value as View>::V)|
        (row.0, S::rendered(row.0, snapshot[row.0]))
}

/// Holds of the snapshot entries that get a new row: those whose key is not
/// shown yet and which the store admits.
pub open spec fn is_new<S: RowStore>(shown: Set<<S::Key as View>::V>) -> spec_fn(
    (<S::Key as View>::V, <S::Source as View>::V),
) -> bool {
    |entry: (<S::Key as View>::V, <S::Source as View>::V)|
        !shown.contains(entry.0) && S::admits(entry.1)
}

/// The row that is created for a snapshot entry.
pub open spec fn created<S: RowStore>() -> spec_fn(
    (<S::Key as View>::V, <S::Source as View>::V),
) -> (<S::Key as View>::V, <S::Value as View>::V) {
    |entry: (<S::Key as View>::V, <S::Source as View>::V)|
        (entry.0, S::rendered(entry.0, entry.1))
}

/// The rows that stay: those whose key the snapshot still has, in their
/// old order, with their values taken from the snapshot.
pub open spec fn kept_rows<S: RowStore>(
    rows: Seq<(<S::Key as View>::V, <S::Value as View>::V)>,
    snapshot: Map<<S::Key as View>::V, <S::Source as View>::V>,
) -> Seq<(<S::Key as View>::V, <S::Value as View>::V)> {
    rows.filter(is_current::<S>(snapshot)).map_values(refreshed::<S>(snapshot))
}

/// The rows that are appended: one for each admitted snapshot entry whose
/// key had no row, in the order of the snapshot.
pub open spec fn added_rows<S: RowStore>(
    entries: Seq<(<S::Key as View>::V, <S::Source as View>::V)>,
    shown: Set<<S::Key as View>::V>,
) -> Seq<(<S::Key as View>::V, <S::Value as View>::V)> {
    entries.filter(is_new::<S>(shown)).map_values(created::<S>())
}

/// The rows after the rows of `rows` have been brought in line with the
/// snapshot `entries`, before any sort: the kept rows, then the added ones.
pub open spec fn merged_rows<S: RowStore>(
    rows: Seq<(<S::Key as View>::V, <S::Value as View>::V)>,
    entries: Seq<(<S::Key as View>::V, <S::Source as View>::V)>,
) -> Seq<(<S::Key as View>::V, <S::Value as View>::V)> {
    kept_rows::<S>(rows, pairs_to_map(entries)) + added_rows::<S>(
        entries,
        pairs_to_map(rows).dom(),
    )
}

/// How many rows a reconciliation touched.
#[derive(Clone, Copy, Debug, PartialEq, Eq)]
pub struct Changes {
    /// Rows that stayed and took new values.
    pub updated: usize,
    /// Rows that were removed.
    pub removed: usize,
    /// Rows that were appended.
    pub inserted: usize,
}

/// The changes that bring `rows` in line with the snapshot `entries`: every
/// row whose key the snapshot still has is updated, every other row is
/// removed, and no row is inserted but the added ones.
pub open spec fn changes_of<S: RowStore>(
    rows: Seq<(<S::Key as View>::V, <S::Value as View>::V)>,
    entries: Seq<(<S::Key as View>::V, <S::Source as View>::V)>,
) -> Changes {
    let kept = kept_rows::<S>(rows, pairs_to_map(entries));
    let added = added_rows::<S>(entries, pairs_to_map(rows).dom());
    Changes {
        updated: kept.len() as usize,
        removed: (rows.len() - kept.len()) as usize,
        inserted: added.len() as usize,
    }
}

/// Whether `after` is what reconciling `before` against the snapshot
/// `entries` gives.
///
/// The sort stays as it was. Without a sort the rows are exactly the merged
/// rows. With a sort they are the merged rows put in order; rows that tie
/// keep the order of the merged rows, and rows that are in order already
/// are not moved.
pub open spec fn is_reconciliation<S: RowStore>(
    before: RowSetView<<S::Key as View>::V, <S::Value as View>::V>,
    entries: Seq<(<S::Key as View>::V, <S::Source as View>::V)>,
    after: RowSetView<<S::Key as View>::V, <S::Value as View>::V>,
) -> bool {
    let merged = merged_rows::<S>(before.rows, entries);
    &&& after.sort == before.sort
    &&& distinct_keys(after.rows)
    &&& after.rows.to_multiset() == merged.to_multiset()
    &&& match before.sort {
        None => after.rows == merged,
        Some(sort) => sorted_by::<S>(after.rows, sort) && ties_keep_order::<S>(
            merged,
            after.rows,
            sort,
        ) && (sorted_by::<S>(merged, sort) ==> after.rows == merged),
    }
}

/// Rows with distinct keys keep distinct keys in any other order.
pub proof fn lemma_reordered_keys_distinct<K, V>(a: Seq<(K, V)>, b: Seq<(K, V)>)
    requires
        distinct_keys(a),
        a.to_multiset() == b.to_multiset(),
    ensures
        distinct_keys(b),
{
    broadcast use vstd::seq_lib::group_to_multiset_ensures;

    assert(a.no_duplicates()) by {
        assert forall|i: int, j: int| 0 <= i < a.len() && 0 <= j < a.len() && i != j implies a[i]
            != a[j] by {
            if a[i] == a[j] {
                assert(a[i].0 == a[j].0);
            }
        }
    }
    a.lemma_multiset_has_no_duplicates();
    b.lemma_multiset_has_no_duplicates_conv();
    assert forall|i: int, j: int|
        0 <= i < b.len() && 0 <= j < b.len() && #[trigger] b[i].0 == #[trigger] b[j].0 implies i
        == j by {
        if i != j {
            assert(b.contains(b[i]));
            assert(b.contains(b[j]));
            vstd::seq_lib::to_multiset_contains(a, b[i]);
            vstd::seq_lib::to_multiset_contains(a, b[j]);
            vstd::seq_lib::to_multiset_contains(b, b[i]);
            vstd::seq_lib::to_multiset_contains(b, b[j]);
            let p = choose|p: int| 0 <= p < a.len() && a[p] == b[i];
            let q = choose|q: int| 0 <= q < a.len() && a[q] == b[j];
            assert(a[p].0 == a[q].0);
        }
    }
}

/// Rows with distinct keys keep distinct keys when a row with a key of its
/// own is appended.
proof fn lemma_push_keeps_keys_distinct<K, V>(rows: Seq<(K, V)>, row: (K, V))
    requires
        distinct_keys(rows),
        forall|x: int| 0 <= x < rows.len() ==> (#[trigger] rows[x]).0 != row.0,
    ensures
        distinct_keys(rows.push(row)),
{
    let now = rows.push(row);
    assert forall|x: int, y: int|
        0 <= x < now.len() && 0 <= y < now.len() && #[trigger] now[x].0 == #[trigger] now[y].0
        implies x == y by {
        if x < rows.len() && y < rows.len() {
            assert(rows[x].0 == rows[y].0);
        } else if x < rows.len() {
            assert(rows[x].0 != row.0);
        } else if y < rows.len() {
            assert(rows[y].0 != row.0);
        }
    }
}

/// Whether `key` is the key of one of the first `upto` pairs.
spec fn has_key<K, V>(pairs: Seq<(K, V)>, upto: int, key: K) -> bool {
    exists|r: int| 0 <= r < upto && r < pairs.len() && #[trigger] pairs[r].0 == key
}

proof fn lemma_has_key_grows<K, V>(pairs: Seq<(K, V)>, upto: int, key: K)
    requires
        has_key(pairs, upto, key),
    ensures
        has_key(pairs, upto + 1, key),
{
    let r = choose|r: int| 0 <= r < upto && r < pairs.len() && #[trigger] pairs[r].0 == key;
    assert(0 <= r < upto + 1 && pairs[r].0 == key);
}

proof fn lemma_has_key_last<K, V>(pairs: Seq<(K, V)>, upto: int, key: K)
    requires
        distinct_keys(pairs),
        0 <= upto < pairs.len(),
    ensures
        has_key(pairs, upto + 1, key) <==> has_key(pairs, upto, key) || pairs[upto].0 == key,
{
    if has_key(pairs, upto + 1, key) {
        let r = choose|r: int|
            0 <= r < upto + 1 && r < pairs.len() && #[trigger] pairs[r].0 == key;
        if r < upto {
            assert(has_key(pairs, upto, key));
        }
    }
    if has_key(pairs, upto, key) {
        lemma_has_key_grows(pairs, upto, key);
    }
    if pairs[upto].0 == key {
        assert(has_key(pairs, upto + 1, key));
    }
}

proof fn lemma_has_key_all<K, V>(pairs: Seq<(K, V)>, key: K)
    requires
        distinct_keys(pairs),
    ensures
        has_key(pairs, pairs.len() as int, key) <==> pairs_to_map(pairs).contains_key(key),
{
    lemma_pairs_to_map(pairs);
    if has_key(pairs, pairs.len() as int, key) {
        let r = choose|r: int|
            0 <= r < pairs.len() && r < pairs.len() && #[trigger] pairs[r].0 == key;
        assert(pairs_to_map(pairs).contains_key(pairs[r].0));
    }
    if pairs_to_map(pairs).contains_key(key) {
        let r = choose|r: int| 0 <= r < pairs.len() && #[trigger] pairs[r].0 == key;
        assert(0 <= r < pairs.len() && pairs[r].0 == key);
    }
}

/// Brings `row_set` in line with `snapshot`.
///
/// Rows whose key the snapshot still has stay in place and take their
/// values from it; the other rows are removed; every admitted snapshot entry
/// without a row gets one, appended in the order of the snapshot. An active
/// sort is set aside while the rows change and applied once at the end.
/// Returns how many rows were updated, removed and inserted.
pub fn reconcile<S: RowStore>(
    row_set: &mut RowSet<S::Key, S::Value>,
    snapshot: &SnapshotMap<S::Key, S::Source>,
) -> (changes: Changes)
    requires
        old(row_set).wf(),
        snapshot.wf(),
    ensures
        final(row_set).wf(),
        is_reconciliation::<S>(old(row_set)@, snapshot.entries(), final(row_set)@),
        changes == changes_of::<S>(old(row_set)@.rows, snapshot.entries()),
{
    let ghost previous = row_set@.rows;
    let ghost entries = snapshot.entries();
    let ghost current = pairs_to_map(entries);
    let ghost shown = pairs_to_map(previous).dom();
    proof {
        snapshot.lemma_distinct();
        lemma_pairs_to_map(entries);
    }
    let saved = row_set.sort;
    row_set.sort = None;
    let mut rows: Vec<Row<S::Key, S::Value>> = Vec::new();
    core::mem::swap(&mut row_set.rows, &mut rows);
    assert(row_views(rows@) == previous);

    let n = snapshot.len();
    let mut seen: Vec<bool> = Vec::new();
    while seen.len() < n
        invariant
            seen@.len() <= n,
            forall|p: int| 0 <= p < seen@.len() ==> !seen@[p],
        decreases n - seen@.len(),
    {
        seen.push(false);
    }

    let mut kept: Vec<Row<S::Key, S::Value>> = Vec::new();
    let mut removed: usize = 0;
    let count = rows.len();
    assert(previous.take(0) =~= Seq::empty());
    assert(row_views(kept@) =~= kept_rows::<S>(previous.take(0), current));
    for row in it: rows.into_iter()
        invariant
            it.seq().len() == previous.len(),
            row_views(it.seq()) == previous,
            snapshot.wf(),
            entries == snapshot.entries(),
            current == pairs_to_map(entries),
            distinct_keys(entries),
            distinct_keys(previous),
            seen@.len() == entries.len(),
            row_views(kept@) == kept_rows::<S>(previous.take(it.index() as int), current),
            kept@.len() + removed == it.index(),
            it.seq().len() == count,
            forall|p: int|
                0 <= p < entries.len() ==> (#[trigger] seen@[p] <==> has_key(
                    previous,
                    it.index() as int,
                    entries[p].0,
                )),
            forall|x: int|
                0 <= x < kept@.len() ==> has_key(
                    previous,
                    it.index() as int,
                    (#[trigger] kept@[x]).key@,
                ),
            distinct_keys(row_views(kept@)),
    {
        let ghost i = it.index() as int;
        let ghost done = row_views(kept@);
        let ghost was_seen = seen@;
        let ghost kept_before = kept@;
        assert(row@ == previous[i]);
        proof {
            assert(previous.take(i + 1) =~= previous.take(i).push(previous[i]));
            previous.take(i).lemma_filter_push(previous[i], is_current::<S>(current));
            lemma_pairs_to_map(entries);
            assert forall|q: int| 0 <= q < entries.len() implies (has_key(
                previous,
                i + 1,
                #[trigger] entries[q].0,
            ) <==> has_key(previous, i, entries[q].0) || previous[i].0 == entries[q].0) by {
                lemma_has_key_last(previous, i, entries[q].0);
            }
            assert forall|x: int| 0 <= x < kept_before.len() implies has_key(
                previous,
                i + 1,
                (#[trigger] kept_before[x]).key@,
            ) && kept_before[x].key@ != previous[i].0 by {
                lemma_has_key_grows(previous, i, kept_before[x].key@);
                let r = choose|r: int|
                    0 <= r < i && r < previous.len() && #[trigger] previous[r].0
                        == kept_before[x].key@;
                assert(r != i);
            }
        }
        match snapshot.position(&row.key) {
            Some(p) => {
                let value = S::render(&row.key, snapshot.value_at(p));
                seen.set(p, true);
                kept.push(Row { key: row.key, value });
                proof {
                    assert(current.contains_key(previous[i].0));
                    assert(current[previous[i].0] == entries[p as int].1);
                    let stay = previous.take(i).filter(is_current::<S>(current));
                    stay.lemma_push_map_commute(refreshed::<S>(current), previous[i]);
                    assert(row_views(kept@) =~= done.push(
                        refreshed::<S>(current)(previous[i]),
                    ));
                    assert(has_key(previous, i + 1, previous[i].0));
                    assert forall|x: int| 0 <= x < kept@.len() implies has_key(
                        previous,
                        i + 1,
                        (#[trigger] kept@[x]).key@,
                    ) by {
                        if x < kept_before.len() {
                            assert(kept@[x] == kept_before[x]);
                        }
                    }
                    assert forall|x: int| 0 <= x < done.len() implies (#[trigger] done[x]).0
                        != previous[i].0 by {
                        assert(done[x].0 == kept_before[x].key@);
                    }
                    lemma_push_keeps_keys_distinct(done, refreshed::<S>(current)(previous[i]));
                }
            },
            None => {
                removed += 1;
                proof {
                    assert(!current.contains_key(previous[i].0));
                    assert forall|x: int| 0 <= x < kept@.len() implies has_key(
                        previous,
                        i + 1,
                        (#[trigger] kept@[x]).key@,
                    ) by {
                        assert(kept@[x] == kept_before[x]);
                    }
                }
            },
        }
    }
    assert(previous.take(previous.len() as int) =~= previous);
    assert(entries.take(0) =~= Seq::empty());
    assert(row_views(kept@) =~= kept_rows::<S>(previous, current) + added_rows::<S>(
        entries.take(0),
        shown,
    ));
    proof {
        assert forall|q: int| 0 <= q < entries.len() implies (#[trigger] seen@[q]
            <==> shown.contains(entries[q].0)) by {
            lemma_has_key_all(previous, entries[q].0);
        }
        assert forall|x: int| 0 <= x < kept@.len() implies shown.contains(
            (#[trigger] kept@[x]).key@,
        ) || has_key(entries, 0, kept@[x].key@) by {
            lemma_has_key_all(previous, kept@[x].key@);
        }
    }

    let updated = kept.len();
    let mut inserted: usize = 0;
    let mut p: usize = 0;
    while p < n
        invariant
            p <= n,
            n == entries.len(),
            inserted <= p,
            updated == kept_rows::<S>(previous, current).len(),
            kept@.len() == updated + inserted,
            snapshot.wf(),
            entries == snapshot.entries(),
            shown == pairs_to_map(previous).dom(),
            distinct_keys(entries),
            seen@.len() == entries.len(),
            forall|q: int|
                0 <= q < entries.len() ==> (#[trigger] seen@[q] <==> shown.contains(
                    entries[q].0,
                )),
            row_views(kept@) == kept_rows::<S>(previous, current) + added_rows::<S>(
                entries.take(p as int),
                shown,
            ),
            forall|x: int|
                0 <= x < kept@.len() ==> shown.contains((#[trigger] kept@[x]).key@) || has_key(
                    entries,
                    p as int,
                    kept@[x].key@,
                ),
            distinct_keys(row_views(kept@)),
        decreases n - p,
    {
        let ghost done = row_views(kept@);
        let ghost kept_before = kept@;
        proof {
            assert(entries.take(p + 1) =~= entries.take(p as int).push(entries[p as int]));
            entries.take(p as int).lemma_filter_push(entries[p as int], is_new::<S>(shown));
            assert forall|x: int| 0 <= x < kept_before.len() implies (shown.contains(
                (#[trigger] kept_before[x]).key@,
            ) || has_key(entries, p + 1, kept_before[x].key@)) && (!shown.contains(
                entries[p as int].0,
            ) ==> kept_before[x].key@ != entries[p as int].0) by {
                if !shown.contains(kept_before[x].key@) {
                    lemma_has_key_grows(entries, p as int, kept_before[x].key@);
                    let q = choose|q: int|
                        0 <= q < p && q < entries.len() && #[trigger] entries[q].0
                            == kept_before[x].key@;
                    assert(q != p);
                }
            }
        }
        if !seen[p] && S::is_admitted(snapshot.value_at(p)) {
            let key = snapshot.key_at(p).duplicate();
            let value = S::render(&key, snapshot.value_at(p));
            kept.push(Row { key, value });
            inserted += 1;
            proof {
                let fresh = entries.take(p as int).filter(is_new::<S>(shown));
                fresh.lemma_push_map_commute(created::<S>(), entries[p as int]);
                assert(row_views(kept@) =~= done.push(created::<S>()(entries[p as int])));
                assert(has_key(entries, p + 1, entries[p as int].0));
                assert forall|x: int| 0 <= x < kept@.len() implies shown.contains(
                    (#[trigger] kept@[x]).key@,
                ) || has_key(entries, p + 1, kept@[x].key@) by {
                    if x < kept_before.len() {
                        assert(kept@[x] == kept_before[x]);
                    }
                }
                assert forall|x: int| 0 <= x < done.len() implies (#[trigger] done[x]).0
                    != entries[p as int].0 by {
                    assert(done[x].0 == kept_before[x].key@);
                }
                lemma_push_keeps_keys_distinct(done, created::<S>()(entries[p as int]));
            }
        } else {
            proof {
                assert forall|x: int| 0 <= x < kept@.len() implies shown.contains(
                    (#[trigger] kept@[x]).key@,
                ) || has_key(entries, p + 1, kept@[x].key@) by {
                    assert(kept@[x] == kept_before[x]);
                }
            }
        }
        p += 1;
    }
    assert(entries.take(entries.len() as int) =~= entries);
    let ghost merged = row_views(kept@);
    assert(merged == merged_rows::<S>(previous, entries));
    match saved {
        Some(sort) => {
            let sorted = sort_rows::<S>(kept, sort);
            proof {
                lemma_reordered_keys_distinct(merged, row_views(sorted@));
            }
            row_set.rows = sorted;
        },
        None => {
            row_set.rows = kept;
        },
    }
    row_set.sort = saved;
    Changes { updated, removed, inserted }
}

} // verus!
