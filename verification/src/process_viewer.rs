//! The process table and the gauges for memory, swap and processor load.

use crate::format::{
    format_number, format_one_decimal, format_percent, format_precise_percent, format_usage,
    grouped, one_decimal, percent_text, precise_percent_text, usage_text,
};
use crate::order::{numbers_in_order, texts_in_order, Cell, SortDirection, SortSpec};
use crate::row::{Row, RowStore};
use crate::row_set::{
    changes_of, is_reconciliation, reconcile, toggled_sort, Changes, RowSet, RowSetView,
};
use crate::laws::lemma_reconciled_rows;
use crate::snapshot::{
    distinct_keys, lemma_pairs_to_map, pairs_to_map, CoreUsage, MemoryInfo, ProcessInfo, ProcessInfoView, Snapshot, SnapshotMap,
};
use vstd::prelude::*;
use vstd::string::*;

verus! {

/// The column that shows the process id.
pub const PID_COLUMN: usize = 0;

/// The column that shows the process name.
pub const NAME_COLUMN: usize = 1;

/// The column that shows the processor usage.
pub const CPU_COLUMN: usize = 2;

/// The column that shows the resident memory.
pub const MEMORY_COLUMN: usize = 3;

/// The column values of one process: each metric as the text that is shown
/// and as the number that is sorted by.
pub struct ProcessRow {
    pub name: String,
    pub cpu_text: String,
    pub cpu_usage_tenths: u32,
    pub memory_text: String,
    pub memory_kb: u64,
}

/// The column values of one process, as a value.
pub struct ProcessRowView {
    pub name: Seq<char>,
    pub cpu_text: Seq<char>,
    pub cpu_usage_tenths: u32,
    pub memory_text: Seq<char>,
    pub memory_kb: u64,
}

impl View for ProcessRow {
    type V = ProcessRowView;

    open spec fn view(&self) -> ProcessRowView {
        ProcessRowView {
            name: self.name@,
            cpu_text: self.cpu_text@,
            cpu_usage_tenths: self.cpu_usage_tenths,
            memory_text: self.memory_text@,
            memory_kb: self.memory_kb,
        }
    }
}

/// The table of processes, keyed by process id.
///
/// A process without a command line gets no row. Processor usage is shown
/// with one decimal place, memory in kilobytes with thousands separators.
pub struct ProcessStore;

impl RowStore for ProcessStore {
    type Key = i64;

    type Source = ProcessInfo;

    type Value = ProcessRow;

    open spec fn admits(source: ProcessInfoView) -> bool {
        source.command_line.len() > 0
    }

    open spec fn rendered(key: i64, source: ProcessInfoView) -> ProcessRowView {
        ProcessRowView {
            name: source.name,
            cpu_text: one_decimal(source.cpu_usage_tenths as nat),
            cpu_usage_tenths: source.cpu_usage_tenths,
            memory_text: grouped(source.resident_memory_kb as nat),
            memory_kb: source.resident_memory_kb,
        }
    }

    open spec fn cell(key: i64, value: ProcessRowView, column: int) -> Cell {
        if column == PID_COLUMN {
            Cell::Number(key as int)
        } else if column == NAME_COLUMN {
            Cell::Text(vstd::utf8::encode_utf8(value.name))
        } else if column == CPU_COLUMN {
            Cell::Number(value.cpu_usage_tenths as int)
        } else if column == MEMORY_COLUMN {
            Cell::Number(value.memory_kb as int)
        } else {
            Cell::Number(0)
        }
    }

    fn is_admitted(source: &ProcessInfo) -> (yes: bool) {
        !source.command_line.as_str().is_empty()
    }

    fn render(key: &i64, source: &ProcessInfo) -> (value: ProcessRow) {
        ProcessRow {
            name: source.name.clone(),
            cpu_text: format_one_decimal(source.cpu_usage_tenths as u64),
            cpu_usage_tenths: source.cpu_usage_tenths,
            memory_text: format_number(source.resident_memory_kb),
            memory_kb: source.resident_memory_kb,
        }
    }

    fn in_order(a: &Row<i64, ProcessRow>, b: &Row<i64, ProcessRow>, sort: SortSpec) -> (ok: bool) {
        if sort.column == PID_COLUMN {
            numbers_in_order(a.key as i128, b.key as i128, sort.direction)
        } else if sort.column == NAME_COLUMN {
            texts_in_order(a.value.name.as_str(), b.value.name.as_str(), sort.direction)
        } else if sort.column == CPU_COLUMN {
            numbers_in_order(
                a.value.cpu_usage_tenths as i128,
                b.value.cpu_usage_tenths as i128,
                sort.direction,
            )
        } else if sort.column == MEMORY_COLUMN {
            numbers_in_order(a.value.memory_kb as i128, b.value.memory_kb as i128, sort.direction)
        } else {
            numbers_in_order(0, 0, sort.direction)
        }
    }
}

/// Whether the texts of a row are what the store renders for its numbers:
/// the processor usage with one decimal place and the memory with thousands
/// separators.
pub open spec fn is_process_row(value: ProcessRowView) -> bool {
    &&& value.cpu_text == one_decimal(value.cpu_usage_tenths as nat)
    &&& value.memory_text == grouped(value.memory_kb as nat)
}

/// What the cursor of the process table reports.
pub enum Selection {
    /// The table has no selection to ask.
    Unavailable,
    /// No row is selected.
    Nothing,
    /// The row of this process is selected.
    Process(i64),
}

/// The process table and the process that the user has picked.
pub struct Procs {
    list_store: RowSet<i64, ProcessRow>,
    current_pid: Option<i64>,
}

/// The process table as a value.
pub struct ProcsView {
    pub list: RowSetView<i64, ProcessRowView>,
    pub current_pid: Option<i64>,
}

impl View for Procs {
    type V = ProcsView;

    closed spec fn view(&self) -> ProcsView {
        ProcsView { list: self.list_store@, current_pid: self.current_pid }
    }
}

impl Procs {
    /// No process has two rows, and every row shows its metrics as the
    /// store renders them.
    pub open spec fn wf(&self) -> bool {
        &&& distinct_keys(self@.list.rows)
        &&& forall|i: int|
            0 <= i < self@.list.rows.len() ==> is_process_row((#[trigger] self@.list.rows[i]).1)
    }

    /// A table with one row for each admitted process of `proc_list`, in
    /// the order of `proc_list`, unsorted and with no process picked.
    pub fn new(proc_list: &SnapshotMap<i64, ProcessInfo>) -> (procs: Procs)
        requires
            proc_list.wf(),
        ensures
            procs.wf(),
            procs@.current_pid == None::<i64>,
            is_reconciliation::<ProcessStore>(
                RowSetView { rows: Seq::empty(), sort: None },
                proc_list.entries(),
                procs@.list,
            ),
    {
        let mut list_store: RowSet<i64, ProcessRow> = RowSet::new();
        let ghost empty = list_store@;
        reconcile::<ProcessStore>(&mut list_store, proc_list);
        proof {
            proc_list.lemma_distinct();
            lemma_reconciled_rows::<ProcessStore>(empty, proc_list.entries(), list_store@);
            lemma_pairs_to_map(list_store@.rows);
            assert forall|i: int| 0 <= i < list_store@.rows.len() implies is_process_row(
                (#[trigger] list_store@.rows[i]).1,
            ) by {
                let pid = list_store@.rows[i].0;
                assert(pairs_to_map(list_store@.rows).contains_key(pid));
            }
        }
        Procs { list_store, current_pid: None }
    }

    /// Brings the table in line with `proc_list`. The picked process stays
    /// picked. Returns how many rows were updated, removed and inserted.
    pub fn update_processes(&mut self, proc_list: &SnapshotMap<i64, ProcessInfo>) -> (changes:
        Changes)
        requires
            old(self).wf(),
            proc_list.wf(),
        ensures
            final(self).wf(),
            final(self)@.current_pid == old(self)@.current_pid,
            is_reconciliation::<ProcessStore>(
                old(self)@.list,
                proc_list.entries(),
                final(self)@.list,
            ),
            changes == changes_of::<ProcessStore>(old(self)@.list.rows, proc_list.entries()),
    {
        let changes = reconcile::<ProcessStore>(&mut self.list_store, proc_list);
        proof {
            proc_list.lemma_distinct();
            lemma_reconciled_rows::<ProcessStore>(
                old(self)@.list,
                proc_list.entries(),
                self@.list,
            );
            lemma_pairs_to_map(self@.list.rows);
            assert forall|i: int| 0 <= i < self@.list.rows.len() implies is_process_row(
                (#[trigger] self@.list.rows[i]).1,
            ) by {
                let pid = self@.list.rows[i].0;
                assert(pairs_to_map(self@.list.rows).contains_key(pid));
            }
        }
        changes
    }

    /// The rows, for rendering.
    pub fn list_store(&self) -> (rows: &RowSet<i64, ProcessRow>)
        ensures
            rows@ == self@.list,
            self.wf() ==> rows.wf(),
    {
        &self.list_store
    }

    /// Asks for the table to be sorted from the next update on.
    pub fn request_sort(&mut self, column: usize, direction: SortDirection)
        ensures
            final(self).wf() == old(self).wf(),
            final(self)@.current_pid == old(self)@.current_pid,
            final(self)@.list.rows == old(self)@.list.rows,
            final(self)@.list.sort == Some(SortSpec { column, direction }),
    {
        self.list_store.request_sort(column, direction);
    }

    /// Asks for the sort that a click on the header of `column` calls for,
    /// from the next update on.
    pub fn toggle_sort(&mut self, column: usize) -> (sort: SortSpec)
        ensures
            final(self).wf() == old(self).wf(),
            final(self)@.current_pid == old(self)@.current_pid,
            final(self)@.list.rows == old(self)@.list.rows,
            final(self)@.list.sort == Some(sort),
            sort == toggled_sort(old(self)@.list.sort, column),
    {
        self.list_store.toggle_sort(column)
    }

    /// The process that "End task" would end, if one is picked.
    pub fn current_pid(&self) -> (pid: Option<i64>)
        ensures
            pid == self@.current_pid,
    {
        self.current_pid
    }

    /// Takes note of what the cursor points at, and says whether "End task"
    /// is to be enabled or disabled.
    ///
    /// A selected row picks its process. An empty selection keeps the
    /// process that was picked before. Without a selection nothing is picked
    /// and the button is left alone.
    pub fn cursor_changed(&mut self, selection: Selection) -> (kill_enabled: Option<bool>)
        ensures
            final(self).wf() == old(self).wf(),
            final(self)@.list == old(self)@.list,
            final(self)@.current_pid == match selection {
                Selection::Unavailable => None,
                Selection::Nothing => old(self)@.current_pid,
                Selection::Process(pid) => Some(pid),
            },
            kill_enabled == match selection {
                Selection::Unavailable => None,
                _ => Some(final(self)@.current_pid is Some),
            },
    {
        match selection {
            Selection::Unavailable => {
                self.current_pid = None;
                None
            },
            Selection::Nothing => Some(self.current_pid.is_some()),
            Selection::Process(pid) => {
                self.current_pid = Some(pid);
                Some(true)
            },
        }
    }
}

/// A bar that is filled in part, with the text that is written on it.
/// The bar is filled to `filled` parts of `full`.
pub struct Gauge {
    pub text: String,
    pub filled: u64,
    pub full: u64,
}

/// A gauge as a value.
pub struct GaugeView {
    pub text: Seq<char>,
    pub filled: u64,
    pub full: u64,
}

impl View for Gauge {
    type V = GaugeView;

    open spec fn view(&self) -> GaugeView {
        GaugeView { text: self.text@, filled: self.filled, full: self.full }
    }
}

/// How many hundredths of a percent fill the gauge of a processor.
pub const FULL_LOAD_HUNDREDTHS: u64 = 10_000;

/// The gauge that an update gives a processor: its load with one digit
/// after the decimal point.
pub open spec fn processor_gauge(usage: CoreUsage) -> GaugeView {
    GaugeView {
        text: percent_text(usage.tenths as nat),
        filled: usage.hundredths as u64,
        full: FULL_LOAD_HUNDREDTHS,
    }
}

/// The gauge that a processor starts with: its load with two digits after
/// the decimal point.
pub open spec fn first_processor_gauge(usage: CoreUsage) -> GaugeView {
    GaugeView {
        text: precise_percent_text(usage.hundredths as nat),
        filled: usage.hundredths as u64,
        full: FULL_LOAD_HUNDREDTHS,
    }
}

/// The gauge for the memory in use.
pub open spec fn ram_gauge(memory: MemoryInfo) -> GaugeView {
    GaugeView {
        text: usage_text(memory.used_kb as nat, memory.total_kb as nat),
        filled: memory.used_kb,
        full: memory.total_kb,
    }
}

/// The gauge for swap: the total less what the snapshot reports as used.
pub open spec fn swap_gauge(memory: MemoryInfo) -> GaugeView {
    let shown = (memory.total_swap_kb - memory.used_swap_kb) as u64;
    GaugeView {
        text: usage_text(shown as nat, memory.total_swap_kb as nat),
        filled: shown,
        full: memory.total_swap_kb,
    }
}

/// The gauges of the first `cores.len()` processors after an update: each
/// shows its core. Gauges beyond the cores given stay as they were.
pub open spec fn updated_gauges(gauges: Seq<GaugeView>, cores: Seq<CoreUsage>) -> Seq<
    GaugeView,
> {
    Seq::new(
        if gauges.len() >= cores.len() {
            gauges.len()
        } else {
            cores.len()
        },
        |i: int|
            if i < cores.len() {
                processor_gauge(cores[i])
            } else {
                gauges[i]
            },
    )
}

fn make_processor_gauge(usage: CoreUsage) -> (gauge: Gauge)
    ensures
        gauge@ == processor_gauge(usage),
{
    Gauge {
        text: format_percent(usage.tenths as u64),
        filled: usage.hundredths as u64,
        full: FULL_LOAD_HUNDREDTHS,
    }
}

fn make_first_processor_gauge(usage: CoreUsage) -> (gauge: Gauge)
    ensures
        gauge@ == first_processor_gauge(usage),
{
    Gauge {
        text: format_precise_percent(usage.hundredths as u64),
        filled: usage.hundredths as u64,
        full: FULL_LOAD_HUNDREDTHS,
    }
}

/// The gauges beside the tables: one for each processor, one for memory
/// and one for swap.
pub struct DisplaySysInfo {
    procs: Vec<Gauge>,
    ram: Gauge,
    swap: Gauge,
}

/// The gauges as values.
pub struct DisplaySysInfoView {
    pub procs: Seq<GaugeView>,
    pub ram: GaugeView,
    pub swap: GaugeView,
}

impl View for DisplaySysInfo {
    type V = DisplaySysInfoView;

    closed spec fn view(&self) -> DisplaySysInfoView {
        DisplaySysInfoView {
            procs: self.procs@.map_values(|gauge: Gauge| gauge@),
            ram: self.ram@,
            swap: self.swap@,
        }
    }
}

impl DisplaySysInfo {
    /// One gauge for each processor of `cpu_cores`, in their order, each
    /// showing its load with two digits after the decimal point, and the
    /// gauges for memory and swap.
    pub fn new(memory: &MemoryInfo, cpu_cores: &Vec<CoreUsage>) -> (info: DisplaySysInfo)
        requires
            memory.used_swap_kb <= memory.total_swap_kb,
        ensures
            info@.procs == cpu_cores@.map_values(|usage: CoreUsage| first_processor_gauge(usage)),
            info@.ram == ram_gauge(*memory),
            info@.swap == swap_gauge(*memory),
    {
        let mut procs: Vec<Gauge> = Vec::new();
        let mut i: usize = 0;
        while i < cpu_cores.len()
            invariant
                i <= cpu_cores@.len(),
                procs@.len() == i,
                forall|j: int|
                    0 <= j < i ==> (#[trigger] procs@[j])@ == first_processor_gauge(cpu_cores@[j]),
            decreases cpu_cores@.len() - i,
        {
            procs.push(make_first_processor_gauge(cpu_cores[i]));
            i += 1;
        }
        let mut info = DisplaySysInfo {
            procs,
            ram: Gauge { text: String::new(), filled: 0, full: 0 },
            swap: Gauge { text: String::new(), filled: 0, full: 0 },
        };
        assert(info@.procs =~= cpu_cores@.map_values(
            |usage: CoreUsage| first_processor_gauge(usage),
        ));
        info.update_ram_display(memory);
        info
    }

    /// Shows `memory` on the gauges for memory and swap.
    pub fn update_ram_display(&mut self, memory: &MemoryInfo)
        requires
            memory.used_swap_kb <= memory.total_swap_kb,
        ensures
            final(self)@.procs == old(self)@.procs,
            final(self)@.ram == ram_gauge(*memory),
            final(self)@.swap == swap_gauge(*memory),
    {
        let total = memory.total_kb;
        let used = memory.used_kb;
        self.ram = Gauge { text: format_usage(used, total), filled: used, full: total };
        let total = memory.total_swap_kb;
        let used = total - memory.used_swap_kb;
        self.swap = Gauge { text: format_usage(used, total), filled: used, full: total };
    }

    /// Shows each core of `cpu_cores` on the gauge at its position, with one
    /// digit after the decimal point. Where there are more cores than
    /// gauges, gauges are added.
    pub fn update_process_display(&mut self, cpu_cores: &Vec<CoreUsage>)
        ensures
            final(self)@.procs == updated_gauges(old(self)@.procs, cpu_cores@),
            final(self)@.ram == old(self)@.ram,
            final(self)@.swap == old(self)@.swap,
    {
        let ghost before = self@.procs;
        let mut i: usize = 0;
        while i < cpu_cores.len()
            invariant
                i <= cpu_cores@.len(),
                self@.ram == old(self)@.ram,
                self@.swap == old(self)@.swap,
                before == old(self)@.procs,
                self@.procs.len() == if before.len() >= i {
                    before.len()
                } else {
                    i as nat
                },
                forall|j: int| 0 <= j < i ==> self@.procs[j] == processor_gauge(cpu_cores@[j]),
                forall|j: int| i <= j < before.len() ==> self@.procs[j] == before[j],
            decreases cpu_cores@.len() - i,
        {
            let ghost shown = self@.procs;
            let gauge = make_processor_gauge(cpu_cores[i]);
            if i < self.procs.len() {
                self.procs.set(i, gauge);
                assert(self@.procs =~= shown.update(i as int, processor_gauge(cpu_cores@[i as int])));
            } else {
                self.procs.push(gauge);
                assert(self@.procs =~= shown.push(processor_gauge(cpu_cores@[i as int])));
            }
            i += 1;
        }
        assert(self@.procs =~= updated_gauges(before, cpu_cores@));
    }

    /// The gauge of the processor at position `i`.
    pub fn processor(&self, i: usize) -> (gauge: &Gauge)
        requires
            i < self@.procs.len(),
        ensures
            gauge@ == self@.procs[i as int],
    {
        &self.procs[i]
    }

    /// The number of processor gauges.
    pub fn processors(&self) -> (n: usize)
        ensures
            n == self@.procs.len(),
    {
        self.procs.len()
    }

    /// The gauge for memory.
    pub fn ram(&self) -> (gauge: &Gauge)
        ensures
            gauge@ == self@.ram,
    {
        &self.ram
    }

    /// The gauge for swap.
    pub fn swap(&self) -> (gauge: &Gauge)
        ensures
            gauge@ == self@.swap,
    {
        &self.swap
    }
}

/// One refresh of the process table and the gauges from one snapshot.
/// Returns how many rows of the table were updated, removed and inserted.
pub fn update_window(procs: &mut Procs, snapshot: &Snapshot, info: &mut DisplaySysInfo) -> (changes:
    Changes)
    requires
        old(procs).wf(),
        snapshot.wf(),
    ensures
        final(procs).wf(),
        final(procs)@.current_pid == old(procs)@.current_pid,
        is_reconciliation::<ProcessStore>(
            old(procs)@.list,
            snapshot.processes.entries(),
            final(procs)@.list,
        ),
        final(info)@.ram == ram_gauge(snapshot.memory),
        final(info)@.swap == swap_gauge(snapshot.memory),
        final(info)@.procs == updated_gauges(old(info)@.procs, snapshot.cpu_cores@),
        changes == changes_of::<ProcessStore>(old(procs)@.list.rows, snapshot.processes.entries()),
{
    info.update_ram_display(&snapshot.memory);
    info.update_process_display(&snapshot.cpu_cores);
    procs.update_processes(&snapshot.processes)
}

} // verus!
