use process_viewer::display_network::{
    Network, INCOME_ERRORS_COLUMN, INCOME_PACKETS_COLUMN, IN_USAGE_COLUMN, NAME_COLUMN,
    OUTCOME_ERRORS_COLUMN, OUTCOME_PACKETS_COLUMN, OUT_USAGE_COLUMN,
};
use process_viewer::order::{SortDirection, SortSpec};
use process_viewer::row_set::Changes;
use process_viewer::snapshot::{NetworkCounters, SnapshotMap};

fn counters(n: u64) -> NetworkCounters {
    NetworkCounters {
        bytes_in: n,
        bytes_out: n * 10,
        packets_in: n * 100,
        packets_out: n * 1000,
        errors_in: n * 10000,
        errors_out: n * 100000,
    }
}

fn snapshot(entries: &[(&str, u64)]) -> SnapshotMap<String, NetworkCounters> {
    let mut map = SnapshotMap::new();
    for (name, n) in entries {
        map.insert(name.to_string(), counters(*n));
    }
    map
}

fn names(network: &Network) -> Vec<String> {
    let rows = network.list_store();
    (0..rows.len()).map(|i| rows.row(i).key.clone()).collect()
}

fn bytes_in(network: &Network) -> Vec<u64> {
    let rows = network.list_store();
    (0..rows.len()).map(|i| rows.row(i).value.counters.bytes_in).collect()
}

fn pairs(network: &Network) -> Vec<(String, NetworkCounters)> {
    let rows = network.list_store();
    let mut all: Vec<(String, NetworkCounters)> =
        (0..rows.len()).map(|i| (rows.row(i).key.clone(), rows.row(i).value.counters)).collect();
    all.sort_by(|a, b| a.0.cmp(&b.0));
    all
}

#[test]
fn new_table_is_empty_and_unsorted() {
    let network = Network::new();
    assert_eq!(network.list_store().len(), 0);
    assert_eq!(network.list_store().sort(), None);
}

#[test]
fn empty_to_full() {
    let mut network = Network::new();
    network.update_networks(&snapshot(&[("A", 1), ("B", 2)]));
    assert_eq!(names(&network), vec!["A", "B"]);
    let rows = network.list_store();
    assert_eq!(rows.row(0).value.counters, counters(1));
    assert_eq!(rows.row(1).value.counters, counters(2));
}

#[test]
fn full_to_empty() {
    let mut network = Network::new();
    network.update_networks(&snapshot(&[("A", 1), ("B", 2), ("C", 3)]));
    assert_eq!(network.list_store().len(), 3);
    network.update_networks(&snapshot(&[]));
    assert_eq!(network.list_store().len(), 0);
}

#[test]
fn row_shows_formatted_and_raw_counters() {
    let mut network = Network::new();
    let mut map = SnapshotMap::new();
    map.insert(
        "Eth0".to_string(),
        NetworkCounters {
            bytes_in: 1234567,
            bytes_out: 1000,
            packets_in: 999,
            packets_out: 0,
            errors_in: 10500,
            errors_out: 1,
        },
    );
    network.update_networks(&map);
    let row = network.list_store().row(0);
    assert_eq!(row.key, "Eth0");
    assert_eq!(row.value.name_lowercase, "eth0");
    assert_eq!(row.value.in_usage, "1,234,567");
    assert_eq!(row.value.out_usage, "1,000");
    assert_eq!(row.value.income_packets, "999");
    assert_eq!(row.value.outcome_packets, "0");
    assert_eq!(row.value.income_errors, "10,500");
    assert_eq!(row.value.outcome_errors, "1");
    assert_eq!(row.value.counters.bytes_in, 1234567);
    assert_eq!(row.value.counters.errors_out, 1);
}

#[test]
fn lowercase_name_differs_from_name_with_capitals() {
    let mut network = Network::new();
    network.update_networks(&snapshot(&[("WLAN0", 1)]));
    let row = network.list_store().row(0);
    assert_eq!(row.key, "WLAN0");
    assert_eq!(row.value.name_lowercase, "wlan0");
    assert_ne!(row.value.name_lowercase, row.key);
}

#[test]
fn completeness_keys_equal_snapshot_keys() {
    let mut network = Network::new();
    network.update_networks(&snapshot(&[("lo", 1), ("eth0", 2), ("wlan0", 3)]));
    network.update_networks(&snapshot(&[("eth0", 5), ("tun0", 6), ("lo", 7), ("br0", 8)]));
    let mut got = names(&network);
    got.sort();
    assert_eq!(got, vec!["br0", "eth0", "lo", "tun0"]);
}

#[test]
fn kept_rows_stay_in_place_and_new_rows_are_appended() {
    let mut network = Network::new();
    network.update_networks(&snapshot(&[("lo", 1), ("eth0", 2), ("wlan0", 3)]));
    network.update_networks(&snapshot(&[("tun0", 6), ("wlan0", 30), ("br0", 8), ("lo", 10)]));
    assert_eq!(names(&network), vec!["lo", "wlan0", "tun0", "br0"]);
    assert_eq!(bytes_in(&network), vec![10, 30, 6, 8]);
}

#[test]
fn same_keys_update_values_only() {
    let mut network = Network::new();
    network.update_networks(&snapshot(&[("lo", 1), ("eth0", 2), ("wlan0", 3)]));
    network.update_networks(&snapshot(&[("wlan0", 33), ("lo", 11), ("eth0", 22)]));
    assert_eq!(names(&network), vec!["lo", "eth0", "wlan0"]);
    assert_eq!(bytes_in(&network), vec![11, 22, 33]);
    assert_eq!(network.list_store().row(1).value.in_usage, "22");
    assert_eq!(network.list_store().row(1).value.out_usage, "220");
}

#[test]
fn keys_are_case_sensitive() {
    let mut network = Network::new();
    network.update_networks(&snapshot(&[("eth0", 1)]));
    network.update_networks(&snapshot(&[("ETH0", 2)]));
    assert_eq!(names(&network), vec!["ETH0"]);
    assert_eq!(bytes_in(&network), vec![2]);
    network.update_networks(&snapshot(&[("ETH0", 3), ("eth0", 4)]));
    assert_eq!(names(&network), vec!["ETH0", "eth0"]);
}

#[test]
fn reconciling_twice_changes_nothing() {
    let mut network = Network::new();
    network.update_networks(&snapshot(&[("lo", 1), ("eth0", 2), ("wlan0", 3)]));
    let next = snapshot(&[("eth0", 5), ("tun0", 6), ("lo", 7)]);
    network.update_networks(&next);
    let once_names = names(&network);
    let once_values = bytes_in(&network);
    network.update_networks(&next);
    assert_eq!(names(&network), once_names);
    assert_eq!(bytes_in(&network), once_values);
    assert_eq!(once_names, vec!["lo", "eth0", "tun0"]);
}

#[test]
fn reconciling_twice_changes_nothing_when_sorted() {
    let mut network = Network::new();
    network.request_sort(IN_USAGE_COLUMN, SortDirection::Descending);
    let next = snapshot(&[("a", 5), ("b", 9), ("c", 7), ("d", 9)]);
    network.update_networks(&next);
    let once_names = names(&network);
    network.update_networks(&next);
    assert_eq!(names(&network), once_names);
    assert_eq!(once_names, vec!["b", "d", "c", "a"]);
}

#[test]
fn snapshot_order_does_not_change_the_rows_as_a_map() {
    let mut first = Network::new();
    let mut second = Network::new();
    let start = snapshot(&[("lo", 1), ("eth0", 2)]);
    first.update_networks(&start);
    second.update_networks(&start);
    first.update_networks(&snapshot(&[("a", 1), ("eth0", 20), ("b", 2), ("c", 3)]));
    second.update_networks(&snapshot(&[("c", 3), ("b", 2), ("eth0", 20), ("a", 1)]));
    assert_eq!(pairs(&first), pairs(&second));
    assert_eq!(names(&first), vec!["eth0", "a", "b", "c"]);
    assert_eq!(names(&second), vec!["eth0", "c", "b", "a"]);
}

#[test]
fn sort_request_waits_for_the_next_update() {
    let mut network = Network::new();
    network.update_networks(&snapshot(&[("b", 2), ("a", 1), ("c", 3)]));
    network.request_sort(NAME_COLUMN, SortDirection::Ascending);
    assert_eq!(names(&network), vec!["b", "a", "c"]);
    assert_eq!(
        network.list_store().sort(),
        Some(SortSpec { column: NAME_COLUMN, direction: SortDirection::Ascending })
    );
    network.update_networks(&snapshot(&[("b", 2), ("a", 1), ("c", 3)]));
    assert_eq!(names(&network), vec!["a", "b", "c"]);
}

#[test]
fn sort_is_kept_and_applied_after_inserts_updates_and_deletes() {
    let mut network = Network::new();
    network.request_sort(IN_USAGE_COLUMN, SortDirection::Ascending);
    network.update_networks(&snapshot(&[("a", 30), ("b", 10), ("c", 20)]));
    assert_eq!(names(&network), vec!["b", "c", "a"]);
    network.update_networks(&snapshot(&[("a", 5), ("c", 20), ("d", 1), ("e", 25)]));
    assert_eq!(names(&network), vec!["d", "a", "c", "e"]);
    assert_eq!(bytes_in(&network), vec![1, 5, 20, 25]);
    assert_eq!(
        network.list_store().sort(),
        Some(SortSpec { column: IN_USAGE_COLUMN, direction: SortDirection::Ascending })
    );
    network.update_networks(&snapshot(&[]));
    assert_eq!(
        network.list_store().sort(),
        Some(SortSpec { column: IN_USAGE_COLUMN, direction: SortDirection::Ascending })
    );
}

#[test]
fn sort_descending() {
    let mut network = Network::new();
    network.request_sort(OUT_USAGE_COLUMN, SortDirection::Descending);
    network.update_networks(&snapshot(&[("a", 3), ("b", 1), ("c", 2), ("d", 4)]));
    assert_eq!(names(&network), vec!["d", "a", "c", "b"]);
}

#[test]
fn sort_by_name_ignores_case() {
    let mut network = Network::new();
    network.request_sort(NAME_COLUMN, SortDirection::Ascending);
    network.update_networks(&snapshot(&[("c", 1), ("B", 2), ("a", 3), ("D", 4)]));
    assert_eq!(names(&network), vec!["a", "B", "c", "D"]);
    network.request_sort(NAME_COLUMN, SortDirection::Descending);
    network.update_networks(&snapshot(&[("c", 1), ("B", 2), ("a", 3), ("D", 4)]));
    assert_eq!(names(&network), vec!["D", "c", "B", "a"]);
}

#[test]
fn sort_by_name_puts_a_prefix_first() {
    let mut network = Network::new();
    network.request_sort(NAME_COLUMN, SortDirection::Ascending);
    network.update_networks(&snapshot(&[("eth10", 1), ("eth1", 2), ("eth", 3), ("eth0", 4)]));
    assert_eq!(names(&network), vec!["eth", "eth0", "eth1", "eth10"]);
}

#[test]
fn rows_that_tie_keep_their_order() {
    let mut network = Network::new();
    network.update_networks(&snapshot(&[("x", 7), ("m", 3), ("a", 7), ("k", 3), ("z", 7)]));
    network.request_sort(IN_USAGE_COLUMN, SortDirection::Ascending);
    network.update_networks(&snapshot(&[("x", 7), ("m", 3), ("a", 7), ("k", 3), ("z", 7)]));
    assert_eq!(names(&network), vec!["m", "k", "x", "a", "z"]);
    network.request_sort(IN_USAGE_COLUMN, SortDirection::Descending);
    network.update_networks(&snapshot(&[("x", 7), ("m", 3), ("a", 7), ("k", 3), ("z", 7)]));
    assert_eq!(names(&network), vec!["x", "a", "z", "m", "k"]);
}

#[test]
fn every_counter_column_sorts_by_its_raw_value() {
    let columns = [
        IN_USAGE_COLUMN,
        OUT_USAGE_COLUMN,
        INCOME_PACKETS_COLUMN,
        OUTCOME_PACKETS_COLUMN,
        INCOME_ERRORS_COLUMN,
        OUTCOME_ERRORS_COLUMN,
    ];
    for (position, column) in columns.iter().enumerate() {
        let mut map = SnapshotMap::new();
        for (name, n) in [("a", 900u64), ("b", 1000), ("c", 20)] {
            let mut values = [0u64; 6];
            values[position] = n;
            map.insert(
                name.to_string(),
                NetworkCounters {
                    bytes_in: values[0],
                    bytes_out: values[1],
                    packets_in: values[2],
                    packets_out: values[3],
                    errors_in: values[4],
                    errors_out: values[5],
                },
            );
        }
        let mut network = Network::new();
        network.request_sort(*column, SortDirection::Ascending);
        network.update_networks(&map);
        assert_eq!(names(&network), vec!["c", "a", "b"]);
    }
}

#[test]
fn a_column_that_does_not_exist_orders_nothing() {
    let mut network = Network::new();
    network.request_sort(7, SortDirection::Descending);
    network.update_networks(&snapshot(&[("b", 2), ("a", 1), ("c", 3)]));
    assert_eq!(names(&network), vec!["b", "a", "c"]);
    assert_eq!(
        network.list_store().sort(),
        Some(SortSpec { column: 7, direction: SortDirection::Descending })
    );
}

#[test]
fn update_reports_what_changed() {
    let mut network = Network::new();
    let filled = network.update_networks(&snapshot(&[("lo", 1), ("eth0", 2), ("wlan0", 3)]));
    assert_eq!(filled, Changes { updated: 0, removed: 0, inserted: 3 });
    let mixed = network.update_networks(&snapshot(&[("tun0", 6), ("wlan0", 30), ("br0", 8)]));
    assert_eq!(mixed, Changes { updated: 1, removed: 2, inserted: 2 });
    let emptied = network.update_networks(&snapshot(&[]));
    assert_eq!(emptied, Changes { updated: 0, removed: 3, inserted: 0 });
    let nothing = network.update_networks(&snapshot(&[]));
    assert_eq!(nothing, Changes { updated: 0, removed: 0, inserted: 0 });
}

#[test]
fn same_keys_make_no_structural_change() {
    let mut network = Network::new();
    network.update_networks(&snapshot(&[("lo", 1), ("eth0", 2), ("wlan0", 3)]));
    let changes = network.update_networks(&snapshot(&[("wlan0", 33), ("lo", 11), ("eth0", 22)]));
    assert_eq!(changes, Changes { updated: 3, removed: 0, inserted: 0 });
    network.request_sort(IN_USAGE_COLUMN, SortDirection::Descending);
    let sorted = network.update_networks(&snapshot(&[("wlan0", 1), ("lo", 2), ("eth0", 3)]));
    assert_eq!(sorted, Changes { updated: 3, removed: 0, inserted: 0 });
    assert_eq!(names(&network), vec!["eth0", "lo", "wlan0"]);
}
