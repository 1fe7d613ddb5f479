//! What holds of every reconciliation.

use crate::display_network::{is_network_row, NetworkRowView, NetworkStore};
use crate::order::SortSpec;
use crate::process_viewer::{ProcessRowView, ProcessStore};
use crate::row::{rows_in_order, RowStore};
use crate::row_set::{
    added_rows, changes_of, created, is_current, is_new, is_reconciliation, kept_rows,
    merged_rows, refreshed, RowSetView,
};
use crate::snapshot::{
    distinct_keys, lemma_pairs_to_map, pairs_to_map, NetworkCounters, ProcessInfoView,
};
use crate::sorting::{lemma_position_of, position_of, sorted_by};
use vstd::prelude::*;

verus! {

/// A value is among the chosen and converted items of `items` exactly when
/// it is the conversion of a chosen item.
pub proof fn lemma_chosen_contains<A, B>(
    items: Seq<A>,
    choose_if: spec_fn(A) -> bool,
    convert: spec_fn(A) -> B,
    value: B,
)
    ensures
        items.filter(choose_if).map_values(convert).contains(value) <==> exists|i: int|
            0 <= i < items.len() && choose_if(#[trigger] items[i]) && convert(items[i]) == value,
{
    let chosen = items.filter(choose_if);
    let converted = chosen.map_values(convert);
    if converted.contains(value) {
        let j = choose|j: int| 0 <= j < converted.len() && converted[j] == value;
        items.lemma_filter_pred(choose_if, j);
        assert(chosen.contains(chosen[j]));
        items.lemma_filter_contains_rev(choose_if, chosen[j]);
        let i = choose|i: int| 0 <= i < items.len() && items[i] == chosen[j];
        assert(choose_if(items[i]) && convert(items[i]) == value);
    }
    if exists|i: int|
        0 <= i < items.len() && choose_if(#[trigger] items[i]) && convert(items[i]) == value {
        let i = choose|i: int|
            0 <= i < items.len() && choose_if(#[trigger] items[i]) && convert(items[i]) == value;
        items.lemma_filter_contains(choose_if, i);
        let j = choose|j: int| 0 <= j < chosen.len() && chosen[j] == items[i];
        assert(converted[j] == value);
    }
}

/// The rows after a reconciliation, by key.
///
/// A key has a row afterwards exactly when the snapshot holds it and it
/// either had a row before or is admitted. Every row shows what the store
/// renders for the snapshot's entry under its key.
pub proof fn lemma_reconciled_rows<S: RowStore>(
    before: RowSetView<<S::Key as View>::V, <S::Value as View>::V>,
    entries: Seq<(<S::Key as View>::V, <S::Source as View>::V)>,
    after: RowSetView<<S::Key as View>::V, <S::Value as View>::V>,
)
    requires
        distinct_keys(before.rows),
        distinct_keys(entries),
        is_reconciliation::<S>(before, entries, after),
    ensures
        forall|k: <S::Key as View>::V| #[trigger]
            pairs_to_map(after.rows).contains_key(k) <==> pairs_to_map(entries).contains_key(k)
                && (pairs_to_map(before.rows).contains_key(k) || S::admits(
                pairs_to_map(entries)[k],
            )),
        forall|k: <S::Key as View>::V| #[trigger]
            pairs_to_map(after.rows).contains_key(k) ==> pairs_to_map(after.rows)[k]
                == S::rendered(k, pairs_to_map(entries)[k]),
{
    let current = pairs_to_map(entries);
    let shown = pairs_to_map(before.rows).dom();
    let kept = kept_rows::<S>(before.rows, current);
    let added = added_rows::<S>(entries, shown);
    let merged = merged_rows::<S>(before.rows, entries);
    let result = pairs_to_map(after.rows);
    lemma_pairs_to_map(before.rows);
    lemma_pairs_to_map(entries);
    lemma_pairs_to_map(after.rows);
    assert forall|k: <S::Key as View>::V| #[trigger] result.contains_key(k) implies (
    current.contains_key(k) && (shown.contains(k) || S::admits(current[k])) && result[k]
        == S::rendered(k, current[k])) by {
        let i = choose|i: int| 0 <= i < after.rows.len() && #[trigger] after.rows[i].0 == k;
        let row = after.rows[i];
        assert(after.rows.contains(row));
        vstd::seq_lib::to_multiset_contains(after.rows, row);
        vstd::seq_lib::to_multiset_contains(merged, row);
        let m = choose|m: int| 0 <= m < merged.len() && merged[m] == row;
        if m < kept.len() {
            assert(kept[m] == row);
            assert(kept.contains(row));
            lemma_chosen_contains(
                before.rows,
                is_current::<S>(current),
                refreshed::<S>(current),
                row,
            );
            let r = choose|r: int|
                0 <= r < before.rows.len() && is_current::<S>(current)(#[trigger] before.rows[r])
                    && refreshed::<S>(current)(before.rows[r]) == row;
            assert(before.rows[r].0 == k);
        } else {
            assert(added[m - kept.len()] == row);
            assert(added.contains(row));
            lemma_chosen_contains(entries, is_new::<S>(shown), created::<S>(), row);
            let q = choose|q: int|
                0 <= q < entries.len() && is_new::<S>(shown)(#[trigger] entries[q])
                    && created::<S>()(entries[q]) == row;
            assert(entries[q].0 == k);
        }
    }
    assert forall|k: <S::Key as View>::V|
        current.contains_key(k) && (shown.contains(k) || S::admits(
            current[k],
        )) implies #[trigger] result.contains_key(k) by {
        let row = (k, S::rendered(k, current[k]));
        if shown.contains(k) {
            let r = choose|r: int| 0 <= r < before.rows.len() && #[trigger] before.rows[r].0 == k;
            assert(is_current::<S>(current)(before.rows[r]) && refreshed::<S>(current)(
                before.rows[r],
            ) == row);
            lemma_chosen_contains(
                before.rows,
                is_current::<S>(current),
                refreshed::<S>(current),
                row,
            );
            let m = choose|m: int| 0 <= m < kept.len() && kept[m] == row;
            assert(merged[m] == row);
        } else {
            let q = choose|q: int| 0 <= q < entries.len() && #[trigger] entries[q].0 == k;
            assert(is_new::<S>(shown)(entries[q]) && created::<S>()(entries[q]) == row);
            lemma_chosen_contains(entries, is_new::<S>(shown), created::<S>(), row);
            let m = choose|m: int| 0 <= m < added.len() && added[m] == row;
            assert(merged[kept.len() + m] == row);
        }
        assert(merged.contains(row));
        vstd::seq_lib::to_multiset_contains(after.rows, row);
        vstd::seq_lib::to_multiset_contains(merged, row);
        let i = choose|i: int| 0 <= i < after.rows.len() && after.rows[i] == row;
        assert(after.rows[i].0 == k);
    }
}

/// Completeness: where every snapshot entry that has no row yet is
/// admitted, the keys of the rows after a reconciliation are exactly the
/// keys of the snapshot.
pub proof fn lemma_reconcile_complete<S: RowStore>(
    before: RowSetView<<S::Key as View>::V, <S::Value as View>::V>,
    entries: Seq<(<S::Key as View>::V, <S::Source as View>::V)>,
    after: RowSetView<<S::Key as View>::V, <S::Value as View>::V>,
)
    requires
        distinct_keys(before.rows),
        distinct_keys(entries),
        is_reconciliation::<S>(before, entries, after),
        forall|k: <S::Key as View>::V| #[trigger]
            pairs_to_map(entries).contains_key(k) ==> pairs_to_map(before.rows).contains_key(k)
                || S::admits(pairs_to_map(entries)[k]),
    ensures
        pairs_to_map(after.rows).dom() == pairs_to_map(entries).dom(),
{
    lemma_reconciled_rows::<S>(before, entries, after);
    assert(pairs_to_map(after.rows).dom() =~= pairs_to_map(entries).dom());
}

/// Order-independence: two snapshots that hold the same entries in
/// different orders give the same rows, as a map from key to value.
pub proof fn lemma_reconcile_ignores_snapshot_order<S: RowStore>(
    before: RowSetView<<S::Key as View>::V, <S::Value as View>::V>,
    entries: Seq<(<S::Key as View>::V, <S::Source as View>::V)>,
    reordered: Seq<(<S::Key as View>::V, <S::Source as View>::V)>,
    after: RowSetView<<S::Key as View>::V, <S::Value as View>::V>,
    after_reordered: RowSetView<<S::Key as View>::V, <S::Value as View>::V>,
)
    requires
        distinct_keys(before.rows),
        distinct_keys(entries),
        distinct_keys(reordered),
        pairs_to_map(entries) == pairs_to_map(reordered),
        is_reconciliation::<S>(before, entries, after),
        is_reconciliation::<S>(before, reordered, after_reordered),
    ensures
        pairs_to_map(after.rows) == pairs_to_map(after_reordered.rows),
{
    lemma_reconciled_rows::<S>(before, entries, after);
    lemma_reconciled_rows::<S>(before, reordered, after_reordered);
    assert(pairs_to_map(after.rows) =~= pairs_to_map(after_reordered.rows));
}

/// Sort preservation: a sort that is active before a reconciliation is
/// active afterwards, and the rows stand in its order.
pub proof fn lemma_reconcile_keeps_sort<S: RowStore>(
    before: RowSetView<<S::Key as View>::V, <S::Value as View>::V>,
    entries: Seq<(<S::Key as View>::V, <S::Source as View>::V)>,
    after: RowSetView<<S::Key as View>::V, <S::Value as View>::V>,
)
    requires
        is_reconciliation::<S>(before, entries, after),
    ensures
        after.sort == before.sort,
        before.sort is Some ==> sorted_by::<S>(after.rows, before.sort->0),
{
}

/// Choosing among items that all qualify leaves them as they are.
pub proof fn lemma_filter_keeps_all<A>(items: Seq<A>, choose_if: spec_fn(A) -> bool)
    requires
        forall|i: int| 0 <= i < items.len() ==> choose_if(#[trigger] items[i]),
    ensures
        items.filter(choose_if) == items,
    decreases items.len(),
{
    reveal(Seq::filter);
    if items.len() > 0 {
        lemma_filter_keeps_all(items.drop_last(), choose_if);
        assert(items.drop_last().push(items.last()) =~= items);
    }
}

/// Idempotence: reconciling a second time against the same snapshot
/// changes nothing.
pub proof fn lemma_reconcile_idempotent<S: RowStore>(
    before: RowSetView<<S::Key as View>::V, <S::Value as View>::V>,
    entries: Seq<(<S::Key as View>::V, <S::Source as View>::V)>,
    once: RowSetView<<S::Key as View>::V, <S::Value as View>::V>,
    twice: RowSetView<<S::Key as View>::V, <S::Value as View>::V>,
)
    requires
        distinct_keys(before.rows),
        distinct_keys(entries),
        is_reconciliation::<S>(before, entries, once),
        is_reconciliation::<S>(once, entries, twice),
    ensures
        twice == once,
{
    let current = pairs_to_map(entries);
    let shown = pairs_to_map(once.rows).dom();
    lemma_reconciled_rows::<S>(before, entries, once);
    lemma_pairs_to_map(once.rows);
    lemma_pairs_to_map(entries);

    let stay = once.rows.filter(is_current::<S>(current));
    assert forall|i: int| 0 <= i < once.rows.len() implies is_current::<S>(current)(
        #[trigger] once.rows[i],
    ) && refreshed::<S>(current)(once.rows[i]) == once.rows[i] by {
        assert(pairs_to_map(once.rows).contains_key(once.rows[i].0));
    }
    lemma_filter_keeps_all(once.rows, is_current::<S>(current));
    assert(kept_rows::<S>(once.rows, current) =~= once.rows);

    assert(entries.all(|entry: (<S::Key as View>::V, <S::Source as View>::V)|
        !is_new::<S>(shown)(entry))) by {
        assert forall|q: int| 0 <= q < entries.len() implies !is_new::<S>(shown)(
            #[trigger] entries[q],
        ) by {
            let k = entries[q].0;
            assert(current.contains_key(k) && current[k] == entries[q].1);
            if S::admits(entries[q].1) {
                assert(pairs_to_map(once.rows).contains_key(k));
            }
        }
    }
    entries.lemma_all_neg_filter_empty(is_new::<S>(shown));
    assert(added_rows::<S>(entries, shown) =~= Seq::empty());
    assert(merged_rows::<S>(once.rows, entries) =~= once.rows);
    assert(twice.rows == once.rows);
}

/// Full to empty: against an empty snapshot no row is left.
pub proof fn lemma_empty_snapshot_removes_all<S: RowStore>(
    before: RowSetView<<S::Key as View>::V, <S::Value as View>::V>,
    entries: Seq<(<S::Key as View>::V, <S::Source as View>::V)>,
    after: RowSetView<<S::Key as View>::V, <S::Value as View>::V>,
)
    requires
        distinct_keys(before.rows),
        entries.len() == 0,
        is_reconciliation::<S>(before, entries, after),
    ensures
        after.rows == Seq::<(<S::Key as View>::V, <S::Value as View>::V)>::empty(),
{
    lemma_reconciled_rows::<S>(before, entries, after);
    lemma_pairs_to_map(after.rows);
    if after.rows.len() > 0 {
        assert(pairs_to_map(after.rows).contains_key(after.rows[0].0));
    }
    assert(after.rows =~= Seq::empty());
}

/// Empty to full: an empty, unsorted row set gets one row for each admitted
/// entry of the snapshot, in the order of the snapshot, with the values that
/// the store renders.
pub proof fn lemma_first_fill<S: RowStore>(
    before: RowSetView<<S::Key as View>::V, <S::Value as View>::V>,
    entries: Seq<(<S::Key as View>::V, <S::Source as View>::V)>,
    after: RowSetView<<S::Key as View>::V, <S::Value as View>::V>,
)
    requires
        before.rows.len() == 0,
        before.sort is None,
        is_reconciliation::<S>(before, entries, after),
    ensures
        after.rows == entries.filter(
            |entry: (<S::Key as View>::V, <S::Source as View>::V)| S::admits(entry.1),
        ).map_values(created::<S>()),
        (forall|i: int| 0 <= i < entries.len() ==> S::admits((#[trigger] entries[i]).1))
            ==> after.rows == entries.map_values(created::<S>()),
{
    let current = pairs_to_map(entries);
    let shown = pairs_to_map(before.rows).dom();
    let admitted = |entry: (<S::Key as View>::V, <S::Source as View>::V)| S::admits(entry.1);
    assert(shown =~= Set::empty());
    assert(before.rows.filter(is_current::<S>(current)) =~= Seq::empty()) by {
        before.rows.lemma_filter_len(is_current::<S>(current));
    }
    assert(kept_rows::<S>(before.rows, current) =~= Seq::empty());
    lemma_filter_agrees(entries, is_new::<S>(shown), admitted);
    assert(after.rows =~= entries.filter(admitted).map_values(created::<S>()));
    if forall|i: int| 0 <= i < entries.len() ==> S::admits((#[trigger] entries[i]).1) {
        lemma_filter_keeps_all(entries, admitted);
    }
}

/// Two conditions that agree on every item choose the same items.
pub proof fn lemma_filter_agrees<A>(
    items: Seq<A>,
    choose_if: spec_fn(A) -> bool,
    other: spec_fn(A) -> bool,
)
    requires
        forall|i: int| 0 <= i < items.len() ==> choose_if(#[trigger] items[i]) == other(items[i]),
    ensures
        items.filter(choose_if) == items.filter(other),
    decreases items.len(),
{
    reveal(Seq::filter);
    if items.len() > 0 {
        lemma_filter_agrees(items.drop_last(), choose_if, other);
    }
}

/// Updates only: where the snapshot holds exactly the keys that have rows,
/// no row is removed and none is inserted, and an unsorted row set keeps
/// every row in its place and gives each the values that the store renders
/// for its entry.
pub proof fn lemma_same_keys_update_in_place<S: RowStore>(
    before: RowSetView<<S::Key as View>::V, <S::Value as View>::V>,
    entries: Seq<(<S::Key as View>::V, <S::Source as View>::V)>,
    after: RowSetView<<S::Key as View>::V, <S::Value as View>::V>,
)
    requires
        distinct_keys(before.rows),
        distinct_keys(entries),
        pairs_to_map(before.rows).dom() == pairs_to_map(entries).dom(),
        is_reconciliation::<S>(before, entries, after),
    ensures
        changes_of::<S>(before.rows, entries).removed == 0,
        changes_of::<S>(before.rows, entries).inserted == 0,
        before.sort is None ==> after.rows == before.rows.map_values(
            refreshed::<S>(pairs_to_map(entries)),
        ),
{
    let current = pairs_to_map(entries);
    let shown = pairs_to_map(before.rows).dom();
    lemma_pairs_to_map(before.rows);
    lemma_pairs_to_map(entries);
    assert forall|i: int| 0 <= i < before.rows.len() implies is_current::<S>(current)(
        #[trigger] before.rows[i],
    ) by {
        assert(shown.contains(before.rows[i].0));
    }
    lemma_filter_keeps_all(before.rows, is_current::<S>(current));
    assert(entries.all(|entry: (<S::Key as View>::V, <S::Source as View>::V)|
        !is_new::<S>(shown)(entry))) by {
        assert forall|q: int| 0 <= q < entries.len() implies !is_new::<S>(shown)(
            #[trigger] entries[q],
        ) by {
            assert(current.contains_key(entries[q].0));
        }
    }
    entries.lemma_all_neg_filter_empty(is_new::<S>(shown));
    assert(added_rows::<S>(entries, shown) =~= Seq::empty());
    assert(kept_rows::<S>(before.rows, current).len() == before.rows.len());
    if before.sort is None {
        assert(after.rows =~= before.rows.map_values(refreshed::<S>(current)));
    }
}

/// The filter applies to new rows only. An entry that is not admitted and
/// has no row gets none. A key that has a row keeps it for as long as the
/// snapshot holds the key, admitted or not, and loses it when the snapshot
/// holds the key no more.
pub proof fn lemma_filter_applies_to_new_rows_only<S: RowStore>(
    before: RowSetView<<S::Key as View>::V, <S::Value as View>::V>,
    entries: Seq<(<S::Key as View>::V, <S::Source as View>::V)>,
    after: RowSetView<<S::Key as View>::V, <S::Value as View>::V>,
    key: <S::Key as View>::V,
)
    requires
        distinct_keys(before.rows),
        distinct_keys(entries),
        is_reconciliation::<S>(before, entries, after),
    ensures
        !pairs_to_map(before.rows).contains_key(key) && pairs_to_map(entries).contains_key(key)
            && !S::admits(pairs_to_map(entries)[key]) ==> !pairs_to_map(after.rows).contains_key(
            key,
        ),
        pairs_to_map(before.rows).contains_key(key) && pairs_to_map(entries).contains_key(key)
            ==> pairs_to_map(after.rows).contains_key(key),
        !pairs_to_map(entries).contains_key(key) ==> !pairs_to_map(after.rows).contains_key(key),
{
    lemma_reconciled_rows::<S>(before, entries, after);
}

/// Chosen items stand in the order in which they stood among all items.
pub proof fn lemma_filter_keeps_order<A>(
    items: Seq<A>,
    choose_if: spec_fn(A) -> bool,
    i: int,
    j: int,
)
    requires
        0 <= i < j < items.len(),
        choose_if(items[i]),
        choose_if(items[j]),
    ensures
        exists|a: int, b: int|
            0 <= a < b < items.filter(choose_if).len() && #[trigger] items.filter(choose_if)[a]
                == items[i] && #[trigger] items.filter(choose_if)[b] == items[j],
    decreases items.len(),
{
    reveal(Seq::filter);
    let rest = items.drop_last();
    let chosen = items.filter(choose_if);
    if j < items.len() - 1 {
        lemma_filter_keeps_order(rest, choose_if, i, j);
        let (a, b) = choose|a: int, b: int|
            0 <= a < b < rest.filter(choose_if).len() && #[trigger] rest.filter(choose_if)[a]
                == rest[i] && #[trigger] rest.filter(choose_if)[b] == rest[j];
        assert(chosen[a] == items[i] && chosen[b] == items[j]);
    } else {
        rest.lemma_filter_contains(choose_if, i);
        let a = choose|a: int|
            0 <= a < rest.filter(choose_if).len() && rest.filter(choose_if)[a] == rest[i];
        let b = rest.filter(choose_if).len() as int;
        assert(chosen[a] == items[i] && chosen[b] == items[j]);
    }
}

/// Stability: in an unsorted row set, two rows whose keys the snapshot
/// still holds stay in the order in which they stood.
pub proof fn lemma_persisting_rows_keep_order<S: RowStore>(
    before: RowSetView<<S::Key as View>::V, <S::Value as View>::V>,
    entries: Seq<(<S::Key as View>::V, <S::Source as View>::V)>,
    after: RowSetView<<S::Key as View>::V, <S::Value as View>::V>,
    first: <S::Key as View>::V,
    second: <S::Key as View>::V,
)
    requires
        distinct_keys(before.rows),
        distinct_keys(entries),
        before.sort is None,
        is_reconciliation::<S>(before, entries, after),
        pairs_to_map(before.rows).contains_key(first),
        pairs_to_map(before.rows).contains_key(second),
        pairs_to_map(entries).contains_key(first),
        pairs_to_map(entries).contains_key(second),
        position_of(before.rows, first) < position_of(before.rows, second),
    ensures
        pairs_to_map(after.rows).contains_key(first),
        pairs_to_map(after.rows).contains_key(second),
        position_of(after.rows, first) < position_of(after.rows, second),
{
    let current = pairs_to_map(entries);
    lemma_reconciled_rows::<S>(before, entries, after);
    lemma_pairs_to_map(before.rows);
    let i = position_of(before.rows, first);
    let j = position_of(before.rows, second);
    let stay = before.rows.filter(is_current::<S>(current));
    lemma_filter_keeps_order(before.rows, is_current::<S>(current), i, j);
    let (a, b) = choose|a: int, b: int|
        0 <= a < b < stay.len() && #[trigger] stay[a] == before.rows[i] && #[trigger] stay[b]
            == before.rows[j];
    let kept = kept_rows::<S>(before.rows, current);
    assert(kept[a].0 == first && kept[b].0 == second);
    assert(after.rows[a].0 == first && after.rows[b].0 == second);
    lemma_position_of(after.rows, a);
    lemma_position_of(after.rows, b);
}

/// Completeness of the network table: after an update the interfaces that
/// have rows are exactly the interfaces of the snapshot.
pub proof fn lemma_networks_complete(
    before: RowSetView<Seq<char>, NetworkRowView>,
    entries: Seq<(Seq<char>, NetworkCounters)>,
    after: RowSetView<Seq<char>, NetworkRowView>,
)
    requires
        distinct_keys(before.rows),
        distinct_keys(entries),
        is_reconciliation::<NetworkStore>(before, entries, after),
    ensures
        pairs_to_map(after.rows).dom() == pairs_to_map(entries).dom(),
{
    lemma_reconcile_complete::<NetworkStore>(before, entries, after);
}

/// Filtered insert: a process without a command line that has no row gets
/// none. A process that has a row keeps it while the snapshot holds the
/// process, with or without a command line, and loses it once the snapshot
/// holds the process no more.
pub proof fn lemma_process_without_command_line(
    before: RowSetView<i64, ProcessRowView>,
    entries: Seq<(i64, ProcessInfoView)>,
    after: RowSetView<i64, ProcessRowView>,
    pid: i64,
)
    requires
        distinct_keys(before.rows),
        distinct_keys(entries),
        is_reconciliation::<ProcessStore>(before, entries, after),
    ensures
        !pairs_to_map(before.rows).contains_key(pid) && pairs_to_map(entries).contains_key(pid)
            && pairs_to_map(entries)[pid].command_line.len() == 0 ==> !pairs_to_map(
            after.rows,
        ).contains_key(pid),
        pairs_to_map(before.rows).contains_key(pid) && pairs_to_map(entries).contains_key(pid)
            ==> pairs_to_map(after.rows).contains_key(pid),
        !pairs_to_map(entries).contains_key(pid) ==> !pairs_to_map(after.rows).contains_key(pid),
{
    lemma_filter_applies_to_new_rows_only::<ProcessStore>(before, entries, after, pid);
}

/// Two arrangements of the same items in which every item stands before
/// every later one, under a relation that never holds both ways, are the
/// same arrangement.
pub proof fn lemma_one_arrangement<A>(a: Seq<A>, b: Seq<A>, before: spec_fn(A, A) -> bool)
    requires
        a.to_multiset() == b.to_multiset(),
        forall|i: int, j: int| 0 <= i < j < a.len() ==> before(#[trigger] a[i], #[trigger] a[j]),
        forall|i: int, j: int| 0 <= i < j < b.len() ==> before(#[trigger] b[i], #[trigger] b[j]),
        forall|x: A, y: A| !(#[trigger] before(x, y) && before(y, x)),
    ensures
        a == b,
    decreases a.len(),
{
    vstd::seq_lib::to_multiset_len(a);
    vstd::seq_lib::to_multiset_len(b);
    if a.len() > 0 {
        if a[0] != b[0] {
            assert(a.contains(a[0]) && b.contains(b[0]));
            vstd::seq_lib::to_multiset_contains(a, a[0]);
            vstd::seq_lib::to_multiset_contains(b, a[0]);
            vstd::seq_lib::to_multiset_contains(a, b[0]);
            vstd::seq_lib::to_multiset_contains(b, b[0]);
            let j = choose|j: int| 0 <= j < a.len() && a[j] == b[0];
            let k = choose|k: int| 0 <= k < b.len() && b[k] == a[0];
            assert(before(a[0], a[j]));
            assert(before(b[0], b[k]));
        }
        let rest_a = a.remove(0);
        let rest_b = b.remove(0);
        vstd::seq_lib::to_multiset_remove(a, 0);
        vstd::seq_lib::to_multiset_remove(b, 0);
        assert forall|i: int, j: int| 0 <= i < j < rest_a.len() implies before(
            #[trigger] rest_a[i],
            #[trigger] rest_a[j],
        ) by {
            assert(rest_a[i] == a[i + 1] && rest_a[j] == a[j + 1]);
        }
        assert forall|i: int, j: int| 0 <= i < j < rest_b.len() implies before(
            #[trigger] rest_b[i],
            #[trigger] rest_b[j],
        ) by {
            assert(rest_b[i] == b[i + 1] && rest_b[j] == b[j + 1]);
        }
        lemma_one_arrangement(rest_a, rest_b, before);
        assert forall|i: int| 0 <= i < a.len() implies a[i] == b[i] by {
            if i > 0 {
                assert(rest_a[i - 1] == a[i] && rest_b[i - 1] == b[i]);
            }
        }
    }
    assert(a =~= b);
}

/// Whether `first` must stand before `second` among the sorted
/// arrangement of `merged`: the two are in order, and if they tie, `first`
/// stood before `second` in `merged`.
pub open spec fn stands_before<S: RowStore>(
    merged: Seq<(<S::Key as View>::V, <S::Value as View>::V)>,
    sort: SortSpec,
) -> spec_fn(
    (<S::Key as View>::V, <S::Value as View>::V),
    (<S::Key as View>::V, <S::Value as View>::V),
) -> bool {
    |first: (<S::Key as View>::V, <S::Value as View>::V), second: (
        <S::Key as View>::V,
        <S::Value as View>::V,
    )|
        rows_in_order::<S>(first, second, sort) && (rows_in_order::<S>(second, first, sort)
            ==> position_of(merged, first.0) < position_of(merged, second.0))
}

/// Determinism: a row set and a snapshot have one reconciliation, down to
/// the place of every row.
pub proof fn lemma_reconciliation_unique<S: RowStore>(
    before: RowSetView<<S::Key as View>::V, <S::Value as View>::V>,
    entries: Seq<(<S::Key as View>::V, <S::Source as View>::V)>,
    after: RowSetView<<S::Key as View>::V, <S::Value as View>::V>,
    other: RowSetView<<S::Key as View>::V, <S::Value as View>::V>,
)
    requires
        is_reconciliation::<S>(before, entries, after),
        is_reconciliation::<S>(before, entries, other),
    ensures
        after == other,
{
    let merged = merged_rows::<S>(before.rows, entries);
    match before.sort {
        None => {},
        Some(sort) => {
            lemma_one_arrangement(after.rows, other.rows, stands_before::<S>(merged, sort));
        },
    }
}

/// The sort key of an interface's name does not change: a row that stays
/// through an update keeps its lowercase name.
pub proof fn lemma_lowercase_name_persists(
    before: RowSetView<Seq<char>, NetworkRowView>,
    entries: Seq<(Seq<char>, NetworkCounters)>,
    after: RowSetView<Seq<char>, NetworkRowView>,
    name: Seq<char>,
)
    requires
        distinct_keys(before.rows),
        distinct_keys(entries),
        forall|i: int| 0 <= i < before.rows.len() ==> is_network_row(#[trigger] before.rows[i]),
        is_reconciliation::<NetworkStore>(before, entries, after),
        pairs_to_map(before.rows).contains_key(name),
        pairs_to_map(entries).contains_key(name),
    ensures
        pairs_to_map(after.rows).contains_key(name),
        pairs_to_map(after.rows)[name].name_lowercase == pairs_to_map(
            before.rows,
        )[name].name_lowercase,
{
    lemma_reconciled_rows::<NetworkStore>(before, entries, after);
    lemma_pairs_to_map(before.rows);
    let i = choose|i: int| 0 <= i < before.rows.len() && #[trigger] before.rows[i].0 == name;
    assert(is_network_row(before.rows[i]));
}

} // verus!
