//! Reports and deliverables.

pub mod report;
