//! Identity keys and the lookup tables that find them in constant time.

use std::collections::HashMap;
use vstd::hash_map::StringHashMap;
use vstd::prelude::*;

verus! {

broadcast use vstd::std_specs::hash::group_hash_axioms;

/// A value that names an entity across refreshes.
///
/// Two keys name the same entity exactly when their views are equal. Each
/// key type brings a table from keys to positions, so that a key is found
/// without scanning.
pub trait RowKey: View + Sized {
    /// A table from keys to positions.
    type Index;

    /// The table as a map from key views to positions.
    spec fn index_view(index: &Self::Index) -> Map<Self::V, usize>;

    /// An empty table.
    fn new_index() -> (index: Self::Index)
        ensures
            Self::index_view(&index) == Map::<Self::V, usize>::empty(),
    ;

    /// Records that `key` stands at `position`.
    fn record(index: &mut Self::Index, key: &Self, position: usize)
        ensures
            Self::index_view(final(index)) == Self::index_view(old(index)).insert(
                key@,
                position,
            ),
    ;

    /// The position recorded for `key`, if any.
    fn find(index: &Self::Index, key: &Self) -> (found: Option<usize>)
        ensures
            found == if Self::index_view(index).contains_key(key@) {
                Some(Self::index_view(index)[key@])
            } else {
                None::<usize>
            },
    ;

    /// A second key for the same entity.
    fn duplicate(&self) -> (copy: Self)
        ensures
            copy@ == self@,
    ;
}

/// Process ids are compared by numeric equality.
impl RowKey for i64 {
    type Index = HashMap<i64, usize>;

    open spec fn index_view(index: &Self::Index) -> Map<i64, usize> {
        index@
    }

    fn new_index() -> (index: Self::Index) {
        HashMap::new()
    }

    fn record(index: &mut Self::Index, key: &Self, position: usize) {
        index.insert(*key, position);
    }

    fn find(index: &Self::Index, key: &Self) -> (found: Option<usize>) {
        match index.get(key) {
            Some(position) => Some(*position),
            None => None,
        }
    }

    fn duplicate(&self) -> (copy: Self) {
        *self
    }
}

/// Interface names are compared character by character, case included.
impl RowKey for String {
    type Index = StringHashMap<usize>;

    open spec fn index_view(index: &Self::Index) -> Map<Seq<char>, usize> {
        index@
    }

    fn new_index() -> (index: Self::Index) {
        StringHashMap::new()
    }

    fn record(index: &mut Self::Index, key: &Self, position: usize) {
        index.insert(key.clone(), position);
    }

    fn find(index: &Self::Index, key: &Self) -> (found: Option<usize>) {
        match index.get(key.as_str()) {
            Some(position) => Some(*position),
            None => None,
        }
    }

    fn duplicate(&self) -> (copy: Self) {
        self.clone()
    }
}

} // verus!
