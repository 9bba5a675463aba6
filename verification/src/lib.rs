//! Domain core of a personal task-tracking application: projects, hierarchical
//! tasks ordered within sibling groups, date-scoped daily todos with optional
//! task links, and a formatted daily report derived from a day's todos.
#![verifier::loop_isolation(false)]

pub mod ext;
pub mod laws;
pub mod model;
pub mod report;
pub mod store;
