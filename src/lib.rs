//! A local-first task manager's data and reminder layer: tasks with
//! subtasks, settings, window layouts per monitor arrangement, snapshot
//! export and import, and the reminder scan that fires each reminder once.

pub mod text;
pub mod datetime;
pub mod model;
pub mod order;
pub mod store;
pub mod notify;
pub mod migrate;
pub mod holiday;
pub mod window;
