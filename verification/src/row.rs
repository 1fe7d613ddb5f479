//! Rows keyed by identity, and the stores that define their columns.

use crate::key::RowKey;
use crate::order::{cells_in_order, Cell, SortSpec};
use vstd::prelude::*;

verus! {

/// One displayed entity: its identity and its last-known column values.
pub struct Row<K, V> {
    pub key: K,
    pub value: V,
}

impl<K: View, V: View> View for Row<K, V> {
    type V = (K::V, V::V);

    open spec fn view(&self) -> (K::V, V::V) {
        (self.key@, self.value@)
    }
}

/// The rows of `rows`, each as the pair of its key and its value.
pub open spec fn row_views<K: View, V: View>(rows: Seq<Row<K, V>>) -> Seq<(K::V, V::V)> {
    rows.map_values(|row: Row<K, V>| row@)
}

/// What a kind of table shows: which snapshot entries get a row, the column
/// values of a row, and the cell that each column is sorted by.
pub trait RowStore {
    /// The identity of a row.
    type Key: RowKey;

    /// What a snapshot holds for one key.
    type Source: View;

    /// The column values of one row.
    type Value: View;

    /// Whether an entry that has no row yet gets one.
    spec fn admits(source: <Self::Source as View>::V) -> bool;

    /// The column values that a row shows for a snapshot entry.
    spec fn rendered(
        key: <Self::Key as View>::V,
        source: <Self::Source as View>::V,
    ) -> <Self::Value as View>::V;

    /// The cell by which a row is ordered under `column`.
    spec fn cell(
        key: <Self::Key as View>::V,
        value: <Self::Value as View>::V,
        column: int,
    ) -> Cell;

    /// Whether an entry that has no row yet gets one.
    fn is_admitted(source: &Self::Source) -> (yes: bool)
        ensures
            yes == Self::admits(source@),
    ;

    /// The column values that a row shows for a snapshot entry.
    fn render(key: &Self::Key, source: &Self::Source) -> (value: Self::Value)
        ensures
            value@ == Self::rendered(key@, source@),
    ;

    /// Whether `a` may stand before `b` under `sort`.
    fn in_order(
        a: &Row<Self::Key, Self::Value>,
        b: &Row<Self::Key, Self::Value>,
        sort: SortSpec,
    ) -> (ok: bool)
        ensures
            ok == cells_in_order(
                Self::cell(a.key@, a.value@, sort.column as int),
                Self::cell(b.key@, b.value@, sort.column as int),
                sort.direction,
            ),
    ;
}

/// Whether row `a` may stand before row `b` under `sort`.
pub open spec fn rows_in_order<S: RowStore>(
    a: (<S::Key as View>::V, <S::Value as View>::V),
    b: (<S::Key as View>::V, <S::Value as View>::V),
    sort: SortSpec,
) -> bool {
    cells_in_order(
        S::cell(a.0, a.1, sort.column as int),
        S::cell(b.0, b.1, sort.column as int),
        sort.direction,
    )
}

} // verus!
