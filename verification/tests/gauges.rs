use process_viewer::process_viewer::{update_window, DisplaySysInfo, Procs};
use process_viewer::snapshot::{CoreUsage, MemoryInfo, ProcessInfo, Snapshot, SnapshotMap};

fn memory(total: u64, used: u64, total_swap: u64, used_swap: u64) -> MemoryInfo {
    MemoryInfo { total_kb: total, used_kb: used, total_swap_kb: total_swap, used_swap_kb: used_swap }
}

fn load(hundredths: u32, tenths: u32) -> CoreUsage {
    CoreUsage { tenths, hundredths }
}

#[test]
fn new_gauges_show_the_snapshot() {
    let info = DisplaySysInfo::new(
        &memory(16_000_000, 4_500_000, 2_000_000, 500_000),
        &vec![load(1234, 123), load(0, 0), load(10000, 1000)],
    );
    assert_eq!(info.processors(), 3);
    assert_eq!(info.processor(0).text, "12.34 %");
    assert_eq!(info.processor(0).filled, 1234);
    assert_eq!(info.processor(0).full, 10000);
    assert_eq!(info.processor(1).text, "0.00 %");
    assert_eq!(info.processor(2).text, "100.00 %");
    assert_eq!(info.processor(2).filled, 10000);
    assert_eq!(info.ram().text, "4 / 16GB");
    assert_eq!(info.ram().filled, 4_500_000);
    assert_eq!(info.ram().full, 16_000_000);
    assert_eq!(info.swap().text, "1500 / 2000MB");
    assert_eq!(info.swap().filled, 1_500_000);
    assert_eq!(info.swap().full, 2_000_000);
}

#[test]
fn new_gauges_show_two_digits_after_the_point() {
    let info = DisplaySysInfo::new(
        &memory(99_999, 500, 1_000, 0),
        &vec![load(2500, 250), load(7500, 750), load(5, 1), load(1207, 121)],
    );
    assert_eq!(info.processors(), 4);
    assert_eq!(info.processor(0).text, "25.00 %");
    assert_eq!(info.processor(1).text, "75.00 %");
    assert_eq!(info.processor(2).text, "0.05 %");
    assert_eq!(info.processor(3).text, "12.07 %");
    assert_eq!(info.ram().text, "500 / 99999KB");
}

#[test]
fn updated_gauges_show_one_digit_after_the_point() {
    let cores = vec![load(2500, 250), load(7500, 750), load(1235, 123)];
    let mut info = DisplaySysInfo::new(&memory(1, 1, 1, 1), &cores);
    assert_eq!(info.processor(2).text, "12.35 %");
    info.update_process_display(&cores);
    assert_eq!(info.processor(0).text, "25.0 %");
    assert_eq!(info.processor(1).text, "75.0 %");
    assert_eq!(info.processor(2).text, "12.3 %");
    assert_eq!(info.processor(2).filled, 1235);
    assert_eq!(info.processor(2).full, 10000);
}

#[test]
fn no_cores_no_processor_gauges() {
    let info = DisplaySysInfo::new(&memory(0, 0, 0, 0), &vec![]);
    assert_eq!(info.processors(), 0);
    assert_eq!(info.ram().text, "0 / 0KB");
    assert_eq!(info.swap().text, "0 / 0KB");
    assert_eq!(info.swap().full, 0);
}

#[test]
fn ram_display_scales_with_the_total() {
    let mut info = DisplaySysInfo::new(&memory(0, 0, 0, 0), &vec![load(50, 5)]);
    info.update_ram_display(&memory(99_999, 1_234, 100_000, 0));
    assert_eq!(info.ram().text, "1234 / 99999KB");
    assert_eq!(info.swap().text, "100 / 100MB");
    info.update_ram_display(&memory(10_000_000_000, 1_000_000_000, 9_999_999_999, 9_999_999_999));
    assert_eq!(info.ram().text, "1 / 10TB");
    assert_eq!(info.swap().text, "0 / 9999GB");
    assert_eq!(info.swap().filled, 0);
    assert_eq!(info.processors(), 1);
    assert_eq!(info.processor(0).text, "0.50 %");
}

#[test]
fn process_display_updates_the_gauges_of_the_cores_given() {
    let mut info =
        DisplaySysInfo::new(&memory(1, 1, 1, 1), &vec![load(100, 10), load(200, 20), load(300, 30)]);
    info.update_process_display(&vec![load(1111, 111), load(2222, 222)]);
    assert_eq!(info.processors(), 3);
    assert_eq!(info.processor(0).text, "11.1 %");
    assert_eq!(info.processor(1).text, "22.2 %");
    assert_eq!(info.processor(2).text, "3.00 %");
    assert_eq!(info.ram().text, "1 / 1KB");
}

#[test]
fn process_display_adds_gauges_for_more_cores() {
    let mut info = DisplaySysInfo::new(&memory(1, 1, 1, 1), &vec![load(100, 10)]);
    info.update_process_display(&vec![load(10, 1), load(20, 2), load(30, 3)]);
    assert_eq!(info.processors(), 3);
    assert_eq!(info.processor(0).text, "0.1 %");
    assert_eq!(info.processor(2).text, "0.3 %");
    assert_eq!(info.processor(2).filled, 30);
}

#[test]
fn update_window_refreshes_table_and_gauges_from_one_snapshot() {
    let mut first = SnapshotMap::new();
    first.insert(
        1,
        ProcessInfo {
            name: "a".to_string(),
            command_line: "a".to_string(),
            cpu_usage_tenths: 1,
            resident_memory_kb: 1,
        },
    );
    let mut procs = Procs::new(&first);
    let mut info = DisplaySysInfo::new(&memory(100, 50, 10, 5), &vec![load(0, 0), load(0, 0)]);

    let mut processes = SnapshotMap::new();
    processes.insert(
        2,
        ProcessInfo {
            name: "b".to_string(),
            command_line: "b --serve".to_string(),
            cpu_usage_tenths: 999,
            resident_memory_kb: 2048,
        },
    );
    let snapshot = Snapshot {
        processes,
        networks: SnapshotMap::new(),
        memory: memory(8_000_000, 2_000_000, 1_000_000, 250_000),
        cpu_cores: vec![load(5000, 500), load(2500, 250)],
    };
    let changes = update_window(&mut procs, &snapshot, &mut info);
    assert_eq!((changes.updated, changes.removed, changes.inserted), (0, 1, 1));
    assert_eq!(procs.list_store().len(), 1);
    assert_eq!(procs.list_store().row(0).key, 2);
    assert_eq!(procs.list_store().row(0).value.cpu_text, "99.9");
    assert_eq!(procs.list_store().row(0).value.memory_text, "2,048");
    assert_eq!(info.ram().text, "2000 / 8000MB");
    assert_eq!(info.swap().text, "750 / 1000MB");
    assert_eq!(info.processor(0).text, "50.0 %");
    assert_eq!(info.processor(1).text, "25.0 %");
}
