use std::collections::{BTreeMap, BTreeSet};

use process_viewer::order::SortDirection;
use process_viewer::process_viewer::{Procs, CPU_COLUMN, MEMORY_COLUMN, NAME_COLUMN, PID_COLUMN};
use process_viewer::snapshot::{ProcessInfo, SnapshotMap};

struct Sequence(u64);

impl Sequence {
    fn next(&mut self) -> u64 {
        self.0 = self.0.wrapping_mul(6364136223846793005).wrapping_add(1442695040888963407);
        self.0 >> 33
    }
}

fn random_snapshot(numbers: &mut Sequence) -> SnapshotMap<i64, ProcessInfo> {
    let mut map = SnapshotMap::new();
    let count = numbers.next() % 12;
    for _ in 0..count {
        let pid = (numbers.next() % 16) as i64 - 4;
        let with_command_line = numbers.next() % 4 != 0;
        map.insert(
            pid,
            ProcessInfo {
                name: format!("n{}", numbers.next() % 5),
                command_line: if with_command_line { format!("run {}", pid) } else { String::new() },
                cpu_usage_tenths: (numbers.next() % 4) as u32,
                resident_memory_kb: numbers.next() % 3000,
            },
        );
    }
    map
}

fn shown(procs: &Procs) -> Vec<(i64, String, u32, u64)> {
    let rows = procs.list_store();
    (0..rows.len())
        .map(|i| {
            let row = rows.row(i);
            (row.key, row.value.name.clone(), row.value.cpu_usage_tenths, row.value.memory_kb)
        })
        .collect()
}

fn in_order(a: &(i64, String, u32, u64), b: &(i64, String, u32, u64), column: usize, direction: SortDirection) -> bool {
    let le = |x: &(i64, String, u32, u64), y: &(i64, String, u32, u64)| match column {
        PID_COLUMN => x.0 <= y.0,
        NAME_COLUMN => x.1 <= y.1,
        CPU_COLUMN => x.2 <= y.2,
        MEMORY_COLUMN => x.3 <= y.3,
        _ => true,
    };
    match direction {
        SortDirection::Ascending => le(a, b),
        SortDirection::Descending => le(b, a),
    }
}

#[test]
fn every_update_leaves_the_table_in_line_with_the_snapshot() {
    let mut numbers = Sequence(7);
    let mut procs = Procs::new(&random_snapshot(&mut numbers));
    for round in 0..400 {
        match numbers.next() % 6 {
            0 => procs.request_sort((numbers.next() % 5) as usize, SortDirection::Ascending),
            1 => procs.request_sort((numbers.next() % 5) as usize, SortDirection::Descending),
            _ => {}
        }
        let before: BTreeSet<i64> = shown(&procs).iter().map(|row| row.0).collect();
        let before_order: Vec<i64> = shown(&procs).iter().map(|row| row.0).collect();
        let snapshot = random_snapshot(&mut numbers);
        let mut expected: BTreeMap<i64, (String, u32, u64)> = BTreeMap::new();
        let mut appended: Vec<i64> = Vec::new();
        for i in 0..snapshot.len() {
            let pid = *snapshot.key_at(i);
            let info = snapshot.value_at(i);
            if before.contains(&pid) || !info.command_line.is_empty() {
                expected.insert(pid, (info.name.clone(), info.cpu_usage_tenths, info.resident_memory_kb));
                if !before.contains(&pid) {
                    appended.push(pid);
                }
            }
        }

        let changes = procs.update_processes(&snapshot);
        let after = shown(&procs);

        let got: BTreeMap<i64, (String, u32, u64)> =
            after.iter().map(|row| (row.0, (row.1.clone(), row.2, row.3))).collect();
        assert_eq!(got.len(), after.len(), "round {}: a pid has two rows", round);
        assert_eq!(got, expected, "round {}", round);
        assert_eq!(changes.inserted, appended.len());
        assert_eq!(changes.updated, after.len() - appended.len());
        assert_eq!(changes.removed, before.len() - changes.updated);

        let merged: Vec<i64> = before_order
            .iter()
            .copied()
            .filter(|pid| expected.contains_key(pid))
            .chain(appended.iter().copied())
            .collect();
        match procs.list_store().sort() {
            None => {
                let order: Vec<i64> = after.iter().map(|row| row.0).collect();
                assert_eq!(order, merged, "round {}", round);
            }
            Some(sort) => {
                for i in 0..after.len() {
                    for j in i + 1..after.len() {
                        assert!(in_order(&after[i], &after[j], sort.column, sort.direction), "round {}", round);
                        if in_order(&after[j], &after[i], sort.column, sort.direction) {
                            let first = merged.iter().position(|pid| *pid == after[i].0).unwrap();
                            let second = merged.iter().position(|pid| *pid == after[j].0).unwrap();
                            assert!(first < second, "round {}: a tie changed its order", round);
                        }
                    }
                }
            }
        }

        let again = procs.update_processes(&snapshot);
        assert_eq!(shown(&procs), after, "round {}: a second update changed the table", round);
        assert_eq!((again.removed, again.inserted), (0, 0));
    }
}
