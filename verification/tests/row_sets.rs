use process_viewer::display_network::{NetworkRow, NetworkStore, IN_USAGE_COLUMN, NAME_COLUMN};
use process_viewer::order::{text_le, SortDirection, SortSpec};
use process_viewer::process_viewer::{ProcessRow, ProcessStore, MEMORY_COLUMN};
use process_viewer::row::{Row, RowStore};
use process_viewer::row_set::{reconcile, RowSet};
use process_viewer::snapshot::{NetworkCounters, ProcessInfo, SnapshotMap};
use process_viewer::sorting::sort_rows;

fn counters(n: u64) -> NetworkCounters {
    NetworkCounters { bytes_in: n, bytes_out: 0, packets_in: 0, packets_out: 0, errors_in: 0, errors_out: 0 }
}

fn networks(entries: &[(&str, u64)]) -> SnapshotMap<String, NetworkCounters> {
    let mut map = SnapshotMap::new();
    for (name, n) in entries {
        map.insert(name.to_string(), counters(*n));
    }
    map
}

fn keys(rows: &RowSet<String, NetworkRow>) -> Vec<String> {
    (0..rows.len()).map(|i| rows.row(i).key.clone()).collect()
}

fn network_row(name: &str, n: u64) -> Row<String, NetworkRow> {
    let key = name.to_string();
    let value = NetworkStore::render(&key, &counters(n));
    Row { key, value }
}

#[test]
fn new_row_set_is_empty_and_unsorted() {
    let rows: RowSet<i64, ProcessRow> = RowSet::new();
    assert_eq!(rows.len(), 0);
    assert_eq!(rows.sort(), None);
}

#[test]
fn reconcile_fills_and_empties_a_row_set() {
    let mut rows: RowSet<String, NetworkRow> = RowSet::new();
    reconcile::<NetworkStore>(&mut rows, &networks(&[("A", 1), ("B", 2)]));
    assert_eq!(keys(&rows), vec!["A", "B"]);
    assert_eq!(rows.row(0).value.counters.bytes_in, 1);
    assert_eq!(rows.row(1).value.counters.bytes_in, 2);
    reconcile::<NetworkStore>(&mut rows, &networks(&[]));
    assert_eq!(rows.len(), 0);
}

#[test]
fn reconcile_of_processes_skips_entries_that_are_not_admitted() {
    let mut map = SnapshotMap::new();
    map.insert(
        1,
        ProcessInfo {
            name: "kernel".to_string(),
            command_line: String::new(),
            cpu_usage_tenths: 0,
            resident_memory_kb: 0,
        },
    );
    map.insert(
        2,
        ProcessInfo {
            name: "shell".to_string(),
            command_line: "sh".to_string(),
            cpu_usage_tenths: 3,
            resident_memory_kb: 4,
        },
    );
    let mut rows: RowSet<i64, ProcessRow> = RowSet::new();
    reconcile::<ProcessStore>(&mut rows, &map);
    assert_eq!(rows.len(), 1);
    assert_eq!(rows.row(0).key, 2);
    assert!(!ProcessStore::is_admitted(map.value_at(0)));
    assert!(ProcessStore::is_admitted(map.value_at(1)));
}

#[test]
fn toggle_sort_alternates_on_the_same_column() {
    let mut rows: RowSet<String, NetworkRow> = RowSet::new();
    let first = rows.toggle_sort(NAME_COLUMN);
    assert_eq!(first, SortSpec { column: NAME_COLUMN, direction: SortDirection::Ascending });
    assert_eq!(rows.sort(), Some(first));
    let second = rows.toggle_sort(NAME_COLUMN);
    assert_eq!(second, SortSpec { column: NAME_COLUMN, direction: SortDirection::Descending });
    let third = rows.toggle_sort(NAME_COLUMN);
    assert_eq!(third, SortSpec { column: NAME_COLUMN, direction: SortDirection::Ascending });
    let other = rows.toggle_sort(IN_USAGE_COLUMN);
    assert_eq!(other, SortSpec { column: IN_USAGE_COLUMN, direction: SortDirection::Ascending });
    rows.request_sort(IN_USAGE_COLUMN, SortDirection::Descending);
    let back = rows.toggle_sort(IN_USAGE_COLUMN);
    assert_eq!(back, SortSpec { column: IN_USAGE_COLUMN, direction: SortDirection::Ascending });
}

#[test]
fn cleared_sort_leaves_rows_in_arrival_order() {
    let mut rows: RowSet<String, NetworkRow> = RowSet::new();
    rows.request_sort(IN_USAGE_COLUMN, SortDirection::Ascending);
    reconcile::<NetworkStore>(&mut rows, &networks(&[("c", 3), ("a", 1), ("b", 2)]));
    assert_eq!(keys(&rows), vec!["a", "b", "c"]);
    rows.clear_sort();
    assert_eq!(rows.sort(), None);
    reconcile::<NetworkStore>(&mut rows, &networks(&[("z", 0), ("c", 30), ("a", 100), ("b", 20)]));
    assert_eq!(keys(&rows), vec!["a", "b", "c", "z"]);
}

#[test]
fn sort_rows_orders_and_keeps_ties_in_place() {
    let rows = vec![
        network_row("e", 5),
        network_row("b", 2),
        network_row("d", 5),
        network_row("a", 2),
        network_row("c", 9),
    ];
    let sort = SortSpec { column: IN_USAGE_COLUMN, direction: SortDirection::Ascending };
    let sorted = sort_rows::<NetworkStore>(rows, sort);
    let names: Vec<&str> = sorted.iter().map(|row| row.key.as_str()).collect();
    assert_eq!(names, vec!["b", "a", "e", "d", "c"]);
}

#[test]
fn sort_rows_leaves_sorted_rows_as_they_are() {
    let rows = vec![network_row("x", 1), network_row("m", 1), network_row("a", 2)];
    let sort = SortSpec { column: IN_USAGE_COLUMN, direction: SortDirection::Ascending };
    let sorted = sort_rows::<NetworkStore>(rows, sort);
    let names: Vec<&str> = sorted.iter().map(|row| row.key.as_str()).collect();
    assert_eq!(names, vec!["x", "m", "a"]);
    let none = sort_rows::<NetworkStore>(Vec::new(), sort);
    assert!(none.is_empty());
}

#[test]
fn in_order_compares_the_cells_of_the_column() {
    let a = network_row("B", 1);
    let b = network_row("a", 2);
    let by_name = SortSpec { column: NAME_COLUMN, direction: SortDirection::Ascending };
    let by_bytes_down = SortSpec { column: IN_USAGE_COLUMN, direction: SortDirection::Descending };
    assert!(!NetworkStore::in_order(&a, &b, by_name));
    assert!(NetworkStore::in_order(&b, &a, by_name));
    assert!(!NetworkStore::in_order(&a, &b, by_bytes_down));
    assert!(NetworkStore::in_order(&b, &a, by_bytes_down));
    assert!(NetworkStore::in_order(&a, &a, by_name));
    let unknown = SortSpec { column: MEMORY_COLUMN + 10, direction: SortDirection::Ascending };
    assert!(NetworkStore::in_order(&a, &b, unknown));
    assert!(NetworkStore::in_order(&b, &a, unknown));
}

#[test]
fn text_order_is_the_order_of_the_bytes() {
    assert!(text_le("", ""));
    assert!(text_le("", "a"));
    assert!(!text_le("a", ""));
    assert!(text_le("abc", "abc"));
    assert!(text_le("abc", "abd"));
    assert!(!text_le("abd", "abc"));
    assert!(text_le("ab", "abc"));
    assert!(!text_le("abc", "ab"));
    assert!(text_le("Z", "a"));
    assert!(text_le("z", "é"));
    let samples = ["", "a", "A", "ab", "b", "é", "zz", "eth0", "eth10", "Eth0"];
    for x in samples {
        for y in samples {
            assert_eq!(text_le(x, y), x <= y);
        }
    }
}
