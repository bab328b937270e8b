//! Scheduling and coalescing engine for a bridge between polled devices and an
//! event bus: delay policies, a repeatable executor, a command coalescer, a
//! change-driven reconciliation rule and a reconnecting event stream.
pub mod delay;
pub mod text;
pub mod policy;
pub mod repeat;
pub mod coalesce;
pub mod misc;
pub mod stove;
pub mod reconcile;
pub mod reconnect;
pub mod cli;
pub mod command;
pub mod alarm;
