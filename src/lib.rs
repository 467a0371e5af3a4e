//! A timesheet library: parsing and writing of the start/stop log, the
//! report over it, rotation of the log into dated archives, the reminder
//! interval, and the decisions of the reminder daemon.

pub mod clock;
pub mod daemon;
pub mod edit;
pub mod entry;
pub mod interval;
pub mod listing;
pub mod log;
pub mod paths;
pub mod rename;
pub mod report;
pub mod rotate;
pub mod select;
pub mod text;
pub mod timeoff;
