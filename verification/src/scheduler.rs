//! The refresh cycle: what the monitor does on each timer tick and when a
//! snapshot, or the news that none could be had, comes back.

use crate::display_network::{Network, NetworkRowView, NetworkStore};
use crate::process_viewer::{
    first_processor_gauge, ram_gauge, swap_gauge, update_window, updated_gauges, DisplaySysInfo,
    ProcessStore, Procs,
};
use crate::row_set::{is_reconciliation, RowSetView};
use crate::snapshot::{CoreUsage, Snapshot};
use vstd::prelude::*;

verus! {

/// The time between two timer ticks, in milliseconds.
pub const REFRESH_INTERVAL_MS: u32 = 1500;

/// Whether a refresh is under way.
#[derive(Clone, Copy, Debug, PartialEq, Eq)]
pub enum Phase {
    /// Nothing is under way: the next tick starts a refresh.
    Idle,
    /// A snapshot has been asked for and has not come back yet.
    Refreshing,
}

/// What the display is to tell the user besides tables and gauges.
#[derive(Clone, Copy, Debug, PartialEq, Eq)]
pub enum Notice {
    /// Nothing to tell.
    Clear,
    /// The last refresh got no snapshot; tables and gauges show older data.
    ProviderUnavailable,
    /// What the user asked for, such as ending a process, failed.
    ActionFailure,
}

/// What happened.
pub enum Event {
    /// The timer fired.
    Tick,
    /// The snapshot that was asked for has come back.
    Snapshot(Snapshot),
    /// The snapshot that was asked for could not be had.
    ProviderUnavailable,
    /// What the user asked for failed.
    ActionFailure,
}

/// What is to be done next.
#[derive(Clone, Copy, Debug, PartialEq, Eq)]
pub enum Action {
    /// Acquire a snapshot and hand it back, or report that none could be had.
    Acquire,
    /// Do nothing.
    Wait,
    /// Tables and gauges have changed: render them.
    Render,
    /// The notice has changed: show it.
    Notify,
}

/// Everything that the window shows, and the state of the refresh cycle.
pub struct Monitor {
    pub procs: Procs,
    pub network: Network,
    pub info: DisplaySysInfo,
    pub phase: Phase,
    pub notice: Notice,
}

/// Whether an event finds the monitor waiting for a snapshot that it can
/// now apply.
pub open spec fn applies_snapshot(phase: Phase, event: Event) -> bool {
    phase == Phase::Refreshing && event is Snapshot
}

/// The phase after an event. A tick starts a refresh; whatever ends one,
/// a snapshot or the news that there is none, returns to idle.
pub open spec fn next_phase(phase: Phase, event: Event) -> Phase {
    match event {
        Event::Tick => Phase::Refreshing,
        Event::Snapshot(_) => Phase::Idle,
        Event::ProviderUnavailable => Phase::Idle,
        Event::ActionFailure => phase,
    }
}

/// The notice after an event. A snapshot that is applied clears it.
pub open spec fn next_notice(phase: Phase, notice: Notice, event: Event) -> Notice {
    match event {
        Event::Tick => notice,
        Event::Snapshot(_) => if phase == Phase::Refreshing {
            Notice::Clear
        } else {
            notice
        },
        Event::ProviderUnavailable => Notice::ProviderUnavailable,
        Event::ActionFailure => Notice::ActionFailure,
    }
}

/// What is to be done after an event. A tick during a refresh starts no
/// second one, and a snapshot that nobody waits for is dropped.
pub open spec fn action_for(phase: Phase, event: Event) -> Action {
    match event {
        Event::Tick => if phase == Phase::Idle {
            Action::Acquire
        } else {
            Action::Wait
        },
        Event::Snapshot(_) => if phase == Phase::Refreshing {
            Action::Render
        } else {
            Action::Wait
        },
        Event::ProviderUnavailable => Action::Notify,
        Event::ActionFailure => Action::Notify,
    }
}

impl Monitor {
    /// Both tables are well-formed.
    pub open spec fn wf(&self) -> bool {
        self.procs.wf() && self.network.wf()
    }

    /// A monitor that shows `snapshot`, idle and with nothing to tell.
    pub fn new(snapshot: &Snapshot) -> (monitor: Monitor)
        requires
            snapshot.wf(),
        ensures
            monitor.wf(),
            monitor.phase == Phase::Idle,
            monitor.notice == Notice::Clear,
            monitor.procs@.current_pid == None::<i64>,
            is_reconciliation::<ProcessStore>(
                RowSetView { rows: Seq::empty(), sort: None },
                snapshot.processes.entries(),
                monitor.procs@.list,
            ),
            is_reconciliation::<NetworkStore>(
                RowSetView { rows: Seq::empty(), sort: None },
                snapshot.networks.entries(),
                monitor.network@,
            ),
            monitor.info@.ram == ram_gauge(snapshot.memory),
            monitor.info@.swap == swap_gauge(snapshot.memory),
            monitor.info@.procs == snapshot.cpu_cores@.map_values(
                |usage: CoreUsage| first_processor_gauge(usage),
            ),
    {
        let procs = Procs::new(&snapshot.processes);
        let mut network = Network::new();
        assert(network@ == RowSetView::<Seq<char>, NetworkRowView> {
            rows: Seq::empty(),
            sort: None,
        });
        network.update_networks(&snapshot.networks);
        let info = DisplaySysInfo::new(&snapshot.memory, &snapshot.cpu_cores);
        Monitor { procs, network, info, phase: Phase::Idle, notice: Notice::Clear }
    }

    /// Takes note of an event and says what is to be done next.
    ///
    /// Tables and gauges change only when a snapshot comes back that was
    /// asked for: then both tables are reconciled against it and the gauges
    /// show it. Otherwise they stay as they are.
    pub fn step(&mut self, event: Event) -> (action: Action)
        requires
            old(self).wf(),
            event matches Event::Snapshot(snapshot) ==> snapshot.wf(),
        ensures
            final(self).wf(),
            action == action_for(old(self).phase, event),
            final(self).phase == next_phase(old(self).phase, event),
            final(self).notice == next_notice(old(self).phase, old(self).notice, event),
            final(self).procs@.current_pid == old(self).procs@.current_pid,
            !applies_snapshot(old(self).phase, event) ==> final(self).procs@ == old(self).procs@
                && final(self).network@ == old(self).network@ && final(self).info@ == old(
                self,
            ).info@,
            applies_snapshot(old(self).phase, event) ==> {
                let snapshot = event->Snapshot_0;
                &&& is_reconciliation::<ProcessStore>(
                    old(self).procs@.list,
                    snapshot.processes.entries(),
                    final(self).procs@.list,
                )
                &&& is_reconciliation::<NetworkStore>(
                    old(self).network@,
                    snapshot.networks.entries(),
                    final(self).network@,
                )
                &&& final(self).info@.ram == ram_gauge(snapshot.memory)
                &&& final(self).info@.swap == swap_gauge(snapshot.memory)
                &&& final(self).info@.procs == updated_gauges(
                    old(self).info@.procs,
                    snapshot.cpu_cores@,
                )
            },
    {
        match event {
            Event::Tick => {
                match self.phase {
                    Phase::Idle => {
                        self.phase = Phase::Refreshing;
                        Action::Acquire
                    },
                    Phase::Refreshing => Action::Wait,
                }
            },
            Event::Snapshot(snapshot) => {
                match self.phase {
                    Phase::Refreshing => {
                        update_window(&mut self.procs, &snapshot, &mut self.info);
                        self.network.update_networks(&snapshot.networks);
                        self.phase = Phase::Idle;
                        self.notice = Notice::Clear;
                        Action::Render
                    },
                    Phase::Idle => Action::Wait,
                }
            },
            Event::ProviderUnavailable => {
                self.phase = Phase::Idle;
                self.notice = Notice::ProviderUnavailable;
                Action::Notify
            },
            Event::ActionFailure => {
                self.notice = Notice::ActionFailure;
                Action::Notify
            },
        }
    }
}

} // verus!
