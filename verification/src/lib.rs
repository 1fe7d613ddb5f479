//! The data side of a live system monitor: snapshots of processes and
//! network interfaces are reconciled into keyed, sortable row sets, and
//! memory and processor loads are rendered as gauges.

pub mod display_network;
pub mod format;
pub mod key;
pub mod laws;
pub mod order;
pub mod process_viewer;
pub mod row;
pub mod row_set;
pub mod scheduler;
pub mod snapshot;
pub mod sorting;
