//! The table of network interfaces.

use crate::format::{format_number, grouped};
use crate::order::{numbers_in_order, texts_in_order, Cell, SortDirection, SortSpec};
use crate::row::{Row, RowStore};
use crate::row_set::{
    changes_of, is_reconciliation, reconcile, toggled_sort, Changes, RowSet, RowSetView,
};
use crate::laws::lemma_reconciled_rows;
use crate::snapshot::{
    distinct_keys, lemma_pairs_to_map, pairs_to_map, NetworkCounters, SnapshotMap,
};
use vstd::prelude::*;
use vstd::string::*;

verus! {

/// The column that shows the interface name.
pub const NAME_COLUMN: usize = 0;

/// The column that shows the bytes received.
pub const IN_USAGE_COLUMN: usize = 1;

/// The column that shows the bytes sent.
pub const OUT_USAGE_COLUMN: usize = 2;

/// The column that shows the packets received.
pub const INCOME_PACKETS_COLUMN: usize = 3;

/// The column that shows the packets sent.
pub const OUTCOME_PACKETS_COLUMN: usize = 4;

/// The column that shows the errors on receiving.
pub const INCOME_ERRORS_COLUMN: usize = 5;

/// The column that shows the errors on sending.
pub const OUTCOME_ERRORS_COLUMN: usize = 6;

/// What `str::to_lowercase` of the standard library returns for a text.
pub uninterp spec fn lowercase(text: Seq<char>) -> Seq<char>;

/// The lowercase form of `text`, from `str::to_lowercase` of the standard
/// library. The contract only names the result: nothing is claimed of what
/// the lowercase of a given text is.
#[verifier::external_body]
fn to_lowercase(text: &str) -> (lower: String)
    ensures
        lower@ == lowercase(text@),
{
    text.to_lowercase()
}

/// The column values of one interface: each counter as the text that is
/// shown and as the number that is sorted by. The name that is shown is the
/// key; its lowercase form is kept so that sorting by name ignores case.
pub struct NetworkRow {
    pub name_lowercase: String,
    pub in_usage: String,
    pub out_usage: String,
    pub income_packets: String,
    pub outcome_packets: String,
    pub income_errors: String,
    pub outcome_errors: String,
    pub counters: NetworkCounters,
}

/// The column values of one interface, as a value.
pub struct NetworkRowView {
    pub name_lowercase: Seq<char>,
    pub in_usage: Seq<char>,
    pub out_usage: Seq<char>,
    pub income_packets: Seq<char>,
    pub outcome_packets: Seq<char>,
    pub income_errors: Seq<char>,
    pub outcome_errors: Seq<char>,
    pub counters: NetworkCounters,
}

impl View for NetworkRow {
    type V = NetworkRowView;

    open spec fn view(&self) -> NetworkRowView {
        NetworkRowView {
            name_lowercase: self.name_lowercase@,
            in_usage: self.in_usage@,
            out_usage: self.out_usage@,
            income_packets: self.income_packets@,
            outcome_packets: self.outcome_packets@,
            income_errors: self.income_errors@,
            outcome_errors: self.outcome_errors@,
            counters: self.counters,
        }
    }
}

/// The table of network interfaces, keyed by interface name. Every
/// interface of a snapshot gets a row.
pub struct NetworkStore;

impl RowStore for NetworkStore {
    type Key = String;

    type Source = NetworkCounters;

    type Value = NetworkRow;

    open spec fn admits(source: NetworkCounters) -> bool {
        true
    }

    open spec fn rendered(key: Seq<char>, source: NetworkCounters) -> NetworkRowView {
        NetworkRowView {
            name_lowercase: lowercase(key),
            in_usage: grouped(source.bytes_in as nat),
            out_usage: grouped(source.bytes_out as nat),
            income_packets: grouped(source.packets_in as nat),
            outcome_packets: grouped(source.packets_out as nat),
            income_errors: grouped(source.errors_in as nat),
            outcome_errors: grouped(source.errors_out as nat),
            counters: source,
        }
    }

    open spec fn cell(key: Seq<char>, value: NetworkRowView, column: int) -> Cell {
        if column == NAME_COLUMN {
            Cell::Text(vstd::utf8::encode_utf8(value.name_lowercase))
        } else if column == IN_USAGE_COLUMN {
            Cell::Number(value.counters.bytes_in as int)
        } else if column == OUT_USAGE_COLUMN {
            Cell::Number(value.counters.bytes_out as int)
        } else if column == INCOME_PACKETS_COLUMN {
            Cell::Number(value.counters.packets_in as int)
        } else if column == OUTCOME_PACKETS_COLUMN {
            Cell::Number(value.counters.packets_out as int)
        } else if column == INCOME_ERRORS_COLUMN {
            Cell::Number(value.counters.errors_in as int)
        } else if column == OUTCOME_ERRORS_COLUMN {
            Cell::Number(value.counters.errors_out as int)
        } else {
            Cell::Number(0)
        }
    }

    fn is_admitted(source: &NetworkCounters) -> (yes: bool) {
        true
    }

    fn render(key: &String, source: &NetworkCounters) -> (value: NetworkRow) {
        let value = NetworkRow {
            name_lowercase: to_lowercase(key.as_str()),
            in_usage: format_number(source.bytes_in),
            out_usage: format_number(source.bytes_out),
            income_packets: format_number(source.packets_in),
            outcome_packets: format_number(source.packets_out),
            income_errors: format_number(source.errors_in),
            outcome_errors: format_number(source.errors_out),
            counters: *source,
        };
        assert(value@ == Self::rendered(key@, source@));
        value
    }

    fn in_order(a: &Row<String, NetworkRow>, b: &Row<String, NetworkRow>, sort: SortSpec) -> (ok:
        bool) {
        let x = &a.value.counters;
        let y = &b.value.counters;
        if sort.column == NAME_COLUMN {
            texts_in_order(
                a.value.name_lowercase.as_str(),
                b.value.name_lowercase.as_str(),
                sort.direction,
            )
        } else if sort.column == IN_USAGE_COLUMN {
            numbers_in_order(x.bytes_in as i128, y.bytes_in as i128, sort.direction)
        } else if sort.column == OUT_USAGE_COLUMN {
            numbers_in_order(x.bytes_out as i128, y.bytes_out as i128, sort.direction)
        } else if sort.column == INCOME_PACKETS_COLUMN {
            numbers_in_order(x.packets_in as i128, y.packets_in as i128, sort.direction)
        } else if sort.column == OUTCOME_PACKETS_COLUMN {
            numbers_in_order(x.packets_out as i128, y.packets_out as i128, sort.direction)
        } else if sort.column == INCOME_ERRORS_COLUMN {
            numbers_in_order(x.errors_in as i128, y.errors_in as i128, sort.direction)
        } else if sort.column == OUTCOME_ERRORS_COLUMN {
            numbers_in_order(x.errors_out as i128, y.errors_out as i128, sort.direction)
        } else {
            numbers_in_order(0, 0, sort.direction)
        }
    }
}

/// Whether a row is what the store renders for its name and its counters:
/// the lowercase name is the lowercase of the name, and every text is its
/// counter with thousands separators.
pub open spec fn is_network_row(row: (Seq<char>, NetworkRowView)) -> bool {
    row.1 == NetworkStore::rendered(row.0, row.1.counters)
}

/// The table of network interfaces.
pub struct Network {
    list_store: RowSet<String, NetworkRow>,
}

impl View for Network {
    type V = RowSetView<Seq<char>, NetworkRowView>;

    closed spec fn view(&self) -> RowSetView<Seq<char>, NetworkRowView> {
        self.list_store@
    }
}

impl Network {
    /// No interface has two rows, and every row shows what the store
    /// renders for its name and its counters.
    pub open spec fn wf(&self) -> bool {
        &&& distinct_keys(self@.rows)
        &&& forall|i: int| 0 <= i < self@.rows.len() ==> is_network_row(#[trigger] self@.rows[i])
    }

    /// An empty, unsorted table.
    pub fn new() -> (network: Network)
        ensures
            network.wf(),
            network@.rows == Seq::<(Seq<char>, NetworkRowView)>::empty(),
            network@.sort == None::<SortSpec>,
    {
        Network { list_store: RowSet::new() }
    }

    /// Brings the table in line with `networks`: the rows of interfaces
    /// that are still there take the new counters, the rows of interfaces
    /// that are gone are removed, and new interfaces get a row. The sort
    /// stays as it was. Returns how many rows were updated, removed and
    /// inserted.
    pub fn update_networks(&mut self, networks: &SnapshotMap<String, NetworkCounters>) -> (changes:
        Changes)
        requires
            old(self).wf(),
            networks.wf(),
        ensures
            final(self).wf(),
            is_reconciliation::<NetworkStore>(old(self)@, networks.entries(), final(self)@),
            changes == changes_of::<NetworkStore>(old(self)@.rows, networks.entries()),
    {
        let changes = reconcile::<NetworkStore>(&mut self.list_store, networks);
        proof {
            networks.lemma_distinct();
            lemma_reconciled_rows::<NetworkStore>(old(self)@, networks.entries(), self@);
            lemma_pairs_to_map(self@.rows);
            assert forall|i: int| 0 <= i < self@.rows.len() implies is_network_row(
                #[trigger] self@.rows[i],
            ) by {
                let name = self@.rows[i].0;
                assert(pairs_to_map(self@.rows).contains_key(name));
            }
        }
        changes
    }

    /// The rows, for rendering.
    pub fn list_store(&self) -> (rows: &RowSet<String, NetworkRow>)
        ensures
            rows@ == self@,
            self.wf() ==> rows.wf(),
    {
        &self.list_store
    }

    /// Asks for the table to be sorted from the next update on.
    pub fn request_sort(&mut self, column: usize, direction: SortDirection)
        ensures
            final(self).wf() == old(self).wf(),
            final(self)@.rows == old(self)@.rows,
            final(self)@.sort == Some(SortSpec { column, direction }),
    {
        self.list_store.request_sort(column, direction);
    }

    /// Asks for the sort that a click on the header of `column` calls for,
    /// from the next update on.
    pub fn toggle_sort(&mut self, column: usize) -> (sort: SortSpec)
        ensures
            final(self).wf() == old(self).wf(),
            final(self)@.rows == old(self)@.rows,
            final(self)@.sort == Some(sort),
            sort == toggled_sort(old(self)@.sort, column),
    {
        self.list_store.toggle_sort(column)
    }
}

} // verus!
