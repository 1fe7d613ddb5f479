//! Point-in-time captures of what is monitored.

use crate::key::RowKey;
use vstd::prelude::*;

verus! {

/// The map that a sequence of key/value pairs with distinct keys stands for.
pub open spec fn pairs_to_map<K, V>(pairs: Seq<(K, V)>) -> Map<K, V> {
    Map::new(
        |k: K| exists|i: int| 0 <= i < pairs.len() && #[trigger] pairs[i].0 == k,
        |k: K| pairs[choose|i: int| 0 <= i < pairs.len() && #[trigger] pairs[i].0 == k].1,
    )
}

/// No key occurs at two positions of `pairs`.
pub open spec fn distinct_keys<K, V>(pairs: Seq<(K, V)>) -> bool {
    forall|i: int, j: int|
        0 <= i < pairs.len() && 0 <= j < pairs.len() && #[trigger] pairs[i].0 == #[trigger] pairs[j].0
            ==> i == j
}

/// With distinct keys, every pair is found in the map under its key.
pub proof fn lemma_pairs_to_map<K, V>(pairs: Seq<(K, V)>)
    requires
        distinct_keys(pairs),
    ensures
        forall|i: int|
            0 <= i < pairs.len() ==> pairs_to_map(pairs).contains_key(#[trigger] pairs[i].0)
                && pairs_to_map(pairs)[pairs[i].0] == pairs[i].1,
        forall|k: K| #[trigger]
            pairs_to_map(pairs).contains_key(k) ==> exists|i: int|
                0 <= i < pairs.len() && #[trigger] pairs[i].0 == k,
{
    assert forall|i: int| 0 <= i < pairs.len() implies pairs_to_map(pairs).contains_key(
        #[trigger] pairs[i].0,
    ) && pairs_to_map(pairs)[pairs[i].0] == pairs[i].1 by {
        let k = pairs[i].0;
        let j = choose|j: int| 0 <= j < pairs.len() && #[trigger] pairs[j].0 == k;
        assert(j == i);
    }
}

/// Replacing the value of a pair is an insertion under its key.
proof fn lemma_insert_replaces<K, V>(before: Seq<(K, V)>, after: Seq<(K, V)>, i: int)
    requires
        distinct_keys(before),
        0 <= i < before.len(),
        after.len() == before.len(),
        after[i].0 == before[i].0,
        after == before.update(i, after[i]),
    ensures
        pairs_to_map(after) == pairs_to_map(before).insert(after[i].0, after[i].1),
{
    assert(distinct_keys(after)) by {
        assert forall|x: int, y: int|
            0 <= x < after.len() && 0 <= y < after.len() && #[trigger] after[x].0
                == #[trigger] after[y].0 implies x == y by {
            assert(after[x].0 == before[x].0 && after[y].0 == before[y].0);
        }
    }
    lemma_pairs_to_map(before);
    lemma_pairs_to_map(after);
    let expected = pairs_to_map(before).insert(after[i].0, after[i].1);
    assert forall|k: K| pairs_to_map(after).contains_key(k) <==> expected.contains_key(k) by {
        if pairs_to_map(after).contains_key(k) {
            let x = choose|x: int| 0 <= x < after.len() && #[trigger] after[x].0 == k;
            assert(before[x].0 == k);
        }
        if pairs_to_map(before).contains_key(k) {
            let x = choose|x: int| 0 <= x < before.len() && #[trigger] before[x].0 == k;
            assert(after[x].0 == k);
        }
    }
    assert forall|k: K| pairs_to_map(after).contains_key(k) implies pairs_to_map(after)[k]
        == expected[k] by {
        let x = choose|x: int| 0 <= x < after.len() && #[trigger] after[x].0 == k;
        assert(before[x].0 == k);
        if x != i {
            assert(after[x] == before[x]);
        }
    }
    assert(pairs_to_map(after) =~= expected);
}

/// Appending a pair with a new key is an insertion under its key.
proof fn lemma_insert_appends<K, V>(before: Seq<(K, V)>, after: Seq<(K, V)>)
    requires
        distinct_keys(after),
        after.len() == before.len() + 1,
        after == before.push(after.last()),
    ensures
        pairs_to_map(after) == pairs_to_map(before).insert(after.last().0, after.last().1),
{
    assert(distinct_keys(before)) by {
        assert forall|x: int, y: int|
            0 <= x < before.len() && 0 <= y < before.len() && #[trigger] before[x].0
                == #[trigger] before[y].0 implies x == y by {
            assert(after[x].0 == after[y].0);
        }
    }
    lemma_pairs_to_map(before);
    lemma_pairs_to_map(after);
    let expected = pairs_to_map(before).insert(after.last().0, after.last().1);
    assert forall|k: K| pairs_to_map(after).contains_key(k) <==> expected.contains_key(k) by {
        if pairs_to_map(after).contains_key(k) {
            let x = choose|x: int| 0 <= x < after.len() && #[trigger] after[x].0 == k;
            if x < before.len() {
                assert(before[x].0 == k);
            }
        }
        if pairs_to_map(before).contains_key(k) {
            let x = choose|x: int| 0 <= x < before.len() && #[trigger] before[x].0 == k;
            assert(after[x].0 == k);
        }
        if k == after.last().0 {
            assert(after[after.len() - 1].0 == k);
        }
    }
    assert forall|k: K| pairs_to_map(after).contains_key(k) implies pairs_to_map(after)[k]
        == expected[k] by {
        let x = choose|x: int| 0 <= x < after.len() && #[trigger] after[x].0 == k;
        if x < before.len() {
            assert(before[x] == after[x]);
        }
    }
    assert(pairs_to_map(after) =~= expected);
}

/// A mapping from identity keys to their latest values that remembers the
/// order in which the keys arrived.
///
/// Every key occurs once. Lookups by key take constant time.
pub struct SnapshotMap<K: RowKey, V: View> {
    items: Vec<(K, V)>,
    index: K::Index,
}

impl<K: RowKey, V: View> SnapshotMap<K, V> {
    /// The entries in arrival order, as views.
    pub closed spec fn entries(&self) -> Seq<(K::V, V::V)> {
        Seq::new(self.items@.len(), |i: int| (self.items@[i].0@, self.items@[i].1@))
    }

    /// The lookup table agrees with the entries.
    pub closed spec fn wf(&self) -> bool {
        &&& forall|i: int|
            0 <= i < self.items@.len() ==> K::index_view(&self.index).contains_key(
                #[trigger] self.items@[i].0@,
            ) && K::index_view(&self.index)[self.items@[i].0@] == i
        &&& forall|k: K::V| #[trigger]
            K::index_view(&self.index).contains_key(k) ==> K::index_view(&self.index)[k]
                < self.items@.len() && self.items@[K::index_view(&self.index)[k] as int].0@ == k
    }

    /// In a well-formed map no key occurs twice.
    pub proof fn lemma_distinct(&self)
        requires
            self.wf(),
        ensures
            distinct_keys(self.entries()),
    {
        assert forall|i: int, j: int|
            0 <= i < self.entries().len() && 0 <= j < self.entries().len()
                && #[trigger] self.entries()[i].0 == #[trigger] self.entries()[j].0 implies i
            == j by {
            assert(K::index_view(&self.index)[self.items@[i].0@] == i);
            assert(K::index_view(&self.index)[self.items@[j].0@] == j);
        }
    }

    /// An empty map.
    pub fn new() -> (map: Self)
        ensures
            map.wf(),
            map.entries() == Seq::<(K::V, V::V)>::empty(),
    {
        let map = SnapshotMap { items: Vec::new(), index: K::new_index() };
        assert(map.entries() =~= Seq::<(K::V, V::V)>::empty());
        map
    }

    /// The number of entries.
    pub fn len(&self) -> (n: usize)
        ensures
            n == self.entries().len(),
    {
        self.items.len()
    }

    /// The position of `key` among the entries, if it is present.
    pub fn position(&self, key: &K) -> (found: Option<usize>)
        requires
            self.wf(),
        ensures
            match found {
                Some(i) => i < self.entries().len() && self.entries()[i as int].0 == key@,
                None => forall|i: int|
                    0 <= i < self.entries().len() ==> (#[trigger] self.entries()[i]).0 != key@,
            },
    {
        let found = K::find(&self.index, key);
        proof {
            if found is None {
                assert forall|i: int| 0 <= i < self.entries().len() implies (
                #[trigger] self.entries()[i]).0 != key@ by {
                    assert(K::index_view(&self.index).contains_key(self.items@[i].0@));
                }
            }
        }
        found
    }

    /// The key at position `i`.
    pub fn key_at(&self, i: usize) -> (key: &K)
        requires
            i < self.entries().len(),
        ensures
            key@ == self.entries()[i as int].0,
    {
        &self.items[i].0
    }

    /// The value at position `i`.
    pub fn value_at(&self, i: usize) -> (value: &V)
        requires
            i < self.entries().len(),
        ensures
            value@ == self.entries()[i as int].1,
    {
        &self.items[i].1
    }

    /// Whether `key` is present.
    pub fn contains_key(&self, key: &K) -> (present: bool)
        requires
            self.wf(),
        ensures
            present == pairs_to_map(self.entries()).contains_key(key@),
    {
        let found = self.position(key);
        proof {
            self.lemma_distinct();
            lemma_pairs_to_map(self.entries());
        }
        found.is_some()
    }

    /// The value stored under `key`, if it is present.
    pub fn get(&self, key: &K) -> (value: Option<&V>)
        requires
            self.wf(),
        ensures
            match value {
                Some(v) => pairs_to_map(self.entries()).contains_key(key@) && v@ == pairs_to_map(
                    self.entries(),
                )[key@],
                None => !pairs_to_map(self.entries()).contains_key(key@),
            },
    {
        proof {
            self.lemma_distinct();
            lemma_pairs_to_map(self.entries());
        }
        match self.position(key) {
            Some(i) => Some(&self.items[i].1),
            None => None,
        }
    }

    /// Stores `value` under `key`. A key that is new is appended to the
    /// entries; one that is present keeps its position and gets the new
    /// value. Returns whether the key was new.
    pub fn insert(&mut self, key: K, value: V) -> (fresh: bool)
        requires
            old(self).wf(),
        ensures
            final(self).wf(),
            final(self)@ == old(self)@.insert(key@, value@),
            fresh == !old(self)@.contains_key(key@),
            fresh ==> final(self).entries() == old(self).entries().push((key@, value@)),
            !fresh ==> exists|i: int|
                0 <= i < old(self).entries().len() && #[trigger] old(self).entries()[i].0 == key@
                    && final(self).entries() == old(self).entries().update(i, (key@, value@)),
    {
        proof {
            self.lemma_distinct();
            lemma_pairs_to_map(self.entries());
        }
        match self.position(&key) {
            Some(i) => {
                self.items.set(i, (key, value));
                assert(self.entries() =~= old(self).entries().update(i as int, (key@, value@)));
                assert(self.wf()) by {
                    assert forall|j: int| 0 <= j < self.items@.len() implies K::index_view(
                        &self.index,
                    ).contains_key(#[trigger] self.items@[j].0@) && K::index_view(
                        &self.index,
                    )[self.items@[j].0@] == j by {
                        assert(self.items@[j].0@ == old(self).items@[j].0@);
                    }
                }
                proof {
                    self.lemma_distinct();
                    lemma_pairs_to_map(self.entries());
                    lemma_insert_replaces(old(self).entries(), self.entries(), i as int);
                }
                false
            },
            None => {
                let position = self.items.len();
                K::record(&mut self.index, &key, position);
                self.items.push((key, value));
                assert(self.entries() =~= old(self).entries().push((key@, value@)));
                assert(self.wf()) by {
                    assert forall|j: int| 0 <= j < self.items@.len() implies K::index_view(
                        &self.index,
                    ).contains_key(#[trigger] self.items@[j].0@) && K::index_view(
                        &self.index,
                    )[self.items@[j].0@] == j by {
                        if j < position {
                            assert(self.items@[j].0@ == old(self).entries()[j].0);
                        }
                    }
                }
                proof {
                    self.lemma_distinct();
                    lemma_insert_appends(old(self).entries(), self.entries());
                }
                true
            },
        }
    }
}

impl<K: RowKey, V: View> View for SnapshotMap<K, V> {
    type V = Map<K::V, V::V>;

    /// The mapping itself, without the order of arrival.
    open spec fn view(&self) -> Map<K::V, V::V> {
        pairs_to_map(self.entries())
    }
}

/// What is known of one process.
pub struct ProcessInfo {
    pub name: String,
    pub command_line: String,
    /// Processor usage in tenths of a percent.
    pub cpu_usage_tenths: u32,
    pub resident_memory_kb: u64,
}

/// A process as a value.
pub struct ProcessInfoView {
    pub name: Seq<char>,
    pub command_line: Seq<char>,
    pub cpu_usage_tenths: u32,
    pub resident_memory_kb: u64,
}

impl View for ProcessInfo {
    type V = ProcessInfoView;

    open spec fn view(&self) -> ProcessInfoView {
        ProcessInfoView {
            name: self.name@,
            command_line: self.command_line@,
            cpu_usage_tenths: self.cpu_usage_tenths,
            resident_memory_kb: self.resident_memory_kb,
        }
    }
}

/// The counters of one network interface.
#[derive(Clone, Copy, Debug, PartialEq, Eq)]
pub struct NetworkCounters {
    pub bytes_in: u64,
    pub bytes_out: u64,
    pub packets_in: u64,
    pub packets_out: u64,
    pub errors_in: u64,
    pub errors_out: u64,
}

impl View for NetworkCounters {
    type V = NetworkCounters;

    open spec fn view(&self) -> NetworkCounters {
        *self
    }
}

/// Memory and swap, in kilobytes.
#[derive(Clone, Copy, Debug, PartialEq, Eq)]
pub struct MemoryInfo {
    pub total_kb: u64,
    pub used_kb: u64,
    pub total_swap_kb: u64,
    pub used_swap_kb: u64,
}

/// The load of one processor core, rounded as the display shows it: once to
/// tenths of a percent and once to hundredths.
#[derive(Clone, Copy, Debug, PartialEq, Eq)]
pub struct CoreUsage {
    /// The load rounded to tenths of a percent.
    pub tenths: u32,
    /// The load rounded to hundredths of a percent.
    pub hundredths: u32,
}

/// One capture of everything that is monitored.
pub struct Snapshot {
    pub processes: SnapshotMap<i64, ProcessInfo>,
    pub networks: SnapshotMap<String, NetworkCounters>,
    pub memory: MemoryInfo,
    /// The load of each processor core.
    pub cpu_cores: Vec<CoreUsage>,
}

impl Snapshot {
    /// Both maps are well-formed, and no more swap is in use than there is.
    pub open spec fn wf(&self) -> bool {
        &&& self.processes.wf()
        &&& self.networks.wf()
        &&& self.memory.used_swap_kb <= self.memory.total_swap_kb
    }
}

} // verus!
