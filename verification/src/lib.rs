//! A task-switch time tracker: an append-only event log with crash
//! recovery and a heartbeat, the timesheet computed from it, and the
//! command protocol of the daemon that serves both.

pub mod calendar;
pub mod client;
pub mod command;
pub mod laws;
pub mod model;
pub mod render;
pub mod server;
pub mod state;
pub mod store;
pub mod text;
pub mod timesheet;
pub mod totals;
pub mod wire;
