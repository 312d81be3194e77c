//! The commands of the `complai` command line, as plain data. The program
//! parses its arguments into these and dispatches on them.

use vstd::prelude::*;

verus! {

/// The whole command line.
#[derive(Debug)]
pub struct Cli {
    pub command: Commands,
}

/// The top-level commands.
#[derive(Debug)]
pub enum Commands {
    /// The built-in agent workflows.
    Skill { command: SkillCommand },
    /// Validate, plan and apply versioned JSON bundles.
    Ingest { command: IngestCommand },
    /// The compliance knowledge base of framework controls.
    Compliance { command: ComplianceCommand },
    /// The shared system knowledge base.
    System { command: SystemCommand },
    /// Projects.
    Project { command: ProjectCommand },
    /// Project facts.
    Fact { command: FactCommand },
    /// The control matrix.
    Matrix { command: MatrixCommand },
    /// The evidence register.
    Evidence { command: EvidenceCommand },
    /// Reports and deliverables.
    Gen { command: GenCommand },
}

#[derive(Debug)]
pub enum SkillCommand {
    /// List the built-in workflows.
    List,
    /// Print one workflow's full prompt.
    Get { skill_name: String },
}

#[derive(Debug)]
#[allow(inconsistent_fields)]
pub enum IngestCommand {
    /// Print the JSON schema of bundles.
    Schema,
    /// Check a bundle's protocol constraints.
    Validate { source: String },
    /// Check targets and preview the changes.
    Plan { source: String },
    /// Apply a bundle; low-confidence records need confirmation.
    Apply { source: String, allow_low_confidence: bool },
}

#[derive(Debug)]
#[allow(inconsistent_fields)]
pub enum ComplianceCommand {
    Scaffold { framework: String },
    Build { framework: String },
    Show { id: String },
    List { framework: Option<String>, domain: Option<String> },
}

#[derive(Debug)]
#[allow(inconsistent_fields)]
pub enum SystemCommand {
    Init { slug: String, name: String },
    Add {
        system: Option<String>,
        domain: String,
        title: String,
        control: Option<String>,
        kind: String,
        reference: Option<String>,
        body: Option<String>,
    },
    Show { system: Option<String>, id: String },
    Find { system: Option<String>, control: String },
}

#[derive(Debug)]
#[allow(inconsistent_fields)]
pub enum ProjectCommand {
    Init { name: String, system: String, framework: String, level: Option<u8> },
    Show,
    Sync,
}

#[derive(Debug)]
#[allow(inconsistent_fields)]
pub enum FactCommand {
    Add { kind: String, title: String, control: Option<String>, body: Option<String> },
    Show { id: String },
    Find { control: String },
}

#[derive(Debug)]
#[allow(inconsistent_fields)]
pub enum MatrixCommand {
    Show { status: Option<String> },
    SetStatus {
        control: String,
        status: String,
        gap: Option<String>,
        owner: Option<String>,
        remediation: Option<String>,
    },
    Link { control: String, evidence: Option<String>, fact: Option<String>, project_fact: Option<String> },
    Trace { control: String },
}

#[derive(Debug)]
#[allow(inconsistent_fields)]
pub enum EvidenceCommand {
    Add { file: String, control: String, kind: String, description: Option<String> },
    List,
    Show { id: String },
    Find { control: String },
}

#[derive(Debug)]
pub enum GenCommand {
    /// The compliance gap report.
    Report,
}

} // verus!
