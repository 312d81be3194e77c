//! The control schema of the compliance knowledge base.
//!
//! Each control is one Markdown file with a frontmatter; the frontmatter is
//! indexed and queried, the body holds our own summary and guidance.

use vstd::prelude::*;

use crate::model::{ControlId, Date, Domain, Framework, IngestMetadata};

verus! {

/// Whether the body of a control has been filled in.
#[derive(Debug, Clone, Copy, PartialEq, Eq, Structural)]
pub enum ExcerptStatus {
    Empty,
    Partial,
    Complete,
}

/// The persisted name of an excerpt status.
pub open spec fn excerpt_status_text(s: ExcerptStatus) -> Seq<char> {
    match s {
        ExcerptStatus::Empty => "empty"@,
        ExcerptStatus::Partial => "partial"@,
        ExcerptStatus::Complete => "complete"@,
    }
}

impl ExcerptStatus {
    pub fn as_str(&self) -> (s: &'static str)
        ensures
            s@ == excerpt_status_text(*self),
    {
        match self {
            ExcerptStatus::Empty => "empty",
            ExcerptStatus::Partial => "partial",
            ExcerptStatus::Complete => "complete",
        }
    }

    /// The status of a control that has not been excerpted yet.
    pub fn default_status() -> (s: ExcerptStatus)
        ensures
            s == ExcerptStatus::Empty,
    {
        ExcerptStatus::Empty
    }
}

/// The queryable frontmatter of a control.
#[derive(Debug, Clone, PartialEq, Eq)]
pub struct ControlFrontmatter {
    /// Globally unique id, e.g. `dengbao-2.0:8.1.4.1`.
    pub id: ControlId,
    pub framework: Framework,
    pub domain: Domain,
    /// Control category, e.g. `安全计算环境`.
    pub category: String,
    /// The number inside the framework, e.g. `8.1.4.1`.
    pub control_id: String,
    /// Short name, e.g. `身份鉴别`.
    pub title: String,
    /// Levels the control applies to, e.g. `[3]`.
    pub levels: Vec<u8>,
    pub tags: Vec<String>,
    /// Cross-framework mappings: framework name to control ids, by name.
    pub mappings: Vec<(String, Vec<ControlId>)>,
    /// Expected kinds of evidence.
    pub expected_evidence: Vec<String>,
    pub excerpt_status: ExcerptStatus,
    pub last_reviewed: Option<Date>,
    /// Where the last structured import came from.
    pub ingest: Option<IngestMetadata>,
}

/// A complete control: frontmatter and Markdown body.
#[derive(Debug, Clone)]
pub struct Control {
    pub fm: ControlFrontmatter,
    pub body: String,
}

/// One compact index record (no body) for navigation and minimal context.
#[derive(Debug, Clone, PartialEq, Eq)]
pub struct ControlIndexEntry {
    pub id: ControlId,
    pub title: String,
    pub domain: Domain,
    pub category: String,
    pub levels: Vec<u8>,
    pub tags: Vec<String>,
    pub mappings: Vec<(String, Vec<ControlId>)>,
    pub excerpt_status: ExcerptStatus,
    /// File path relative to the framework directory.
    pub file: String,
}

/// The compact index of a framework (`index.yaml`).
#[derive(Debug, Clone, PartialEq, Eq)]
pub struct ControlIndex {
    pub framework: Framework,
    pub controls: Vec<ControlIndexEntry>,
}

} // verus!
