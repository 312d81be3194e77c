//! The project layer: each project binds one system to one framework and holds
//! its own matrix, facts and evidence.

pub mod evidence;
pub mod fact;
pub mod init;
pub mod matrix;

use vstd::prelude::*;

use crate::text::{append_dec, append_str, dec, join, owned, str_eq, string_of};

verus! {

/// What `project.yaml` records: the name, the bound system and framework with
/// the knowledge-base revisions the project was last synced to, and the level.
#[derive(Debug, Clone)]
pub struct ProjectMeta {
    pub name: String,
    pub system: String,
    pub system_revision: String,
    pub framework: String,
    pub framework_revision: String,
    pub level: Option<u8>,
}

/// The revisions a project is pinned to, and the current ones.
#[derive(Debug, Clone)]
pub struct ProjectRevisionStatus {
    pub framework_revision: String,
    pub current_framework_revision: String,
    pub system_revision: String,
    pub current_system_revision: String,
}

impl ProjectRevisionStatus {
    /// Whether both pinned revisions are the current ones.
    pub fn is_current(&self) -> (b: bool)
        ensures
            b == (self.framework_revision@ == self.current_framework_revision@ && self.system_revision@
                == self.current_system_revision@),
    {
        str_eq(self.framework_revision.as_str(), self.current_framework_revision.as_str()) && str_eq(
            self.system_revision.as_str(),
            self.current_system_revision.as_str(),
        )
    }
}

/// The revision status of a project, from its pinned revisions and the
/// current ones.
pub fn revision_status(meta: &ProjectMeta, current_framework_revision: String, current_system_revision: String) -> (s: ProjectRevisionStatus)
    ensures
        s.framework_revision@ == meta.framework_revision@,
        s.system_revision@ == meta.system_revision@,
        s.current_framework_revision == current_framework_revision,
        s.current_system_revision == current_system_revision,
{
    ProjectRevisionStatus {
        framework_revision: meta.framework_revision.clone(),
        current_framework_revision,
        system_revision: meta.system_revision.clone(),
        current_system_revision,
    }
}

/// The changes between pinned and current revisions, as
/// `framework a -> b, system c -> d` (only the parts that changed).
pub open spec fn drift_text(s: ProjectRevisionStatus) -> Seq<char> {
    let f = "framework "@ + s.framework_revision@ + " -> "@ + s.current_framework_revision@;
    let y = "system "@ + s.system_revision@ + " -> "@ + s.current_system_revision@;
    let parts = (if s.framework_revision@ != s.current_framework_revision@ { seq![f] } else { Seq::empty() }) + (
    if s.system_revision@ != s.current_system_revision@ {
        seq![y]
    } else {
        Seq::empty()
    });
    join(parts, ", "@)
}

/// A project whose knowledge base changed since it was last synced.
#[derive(Debug, Clone)]
pub struct RevisionDrift {
    /// `framework a -> b, system c -> d`.
    pub drift: String,
}

/// Refuses to work on a project whose pinned revisions are not current;
/// the changes must be reviewed and synced first.
pub fn ensure_revisions_current(status: &ProjectRevisionStatus) -> (r: Result<(), RevisionDrift>)
    ensures
        r is Ok <==> status.framework_revision@ == status.current_framework_revision@ && status.system_revision@
            == status.current_system_revision@,
        r matches Err(d) ==> d.drift@ == drift_text(*status),
{
    if status.is_current() {
        return Ok(());
    }
    let fw_same = str_eq(status.framework_revision.as_str(), status.current_framework_revision.as_str());
    let sys_same = str_eq(status.system_revision.as_str(), status.current_system_revision.as_str());
    let mut v: Vec<char> = Vec::new();
    if !fw_same {
        append_str(&mut v, "framework ");
        append_str(&mut v, status.framework_revision.as_str());
        append_str(&mut v, " -> ");
        append_str(&mut v, status.current_framework_revision.as_str());
    }
    if !sys_same {
        if !fw_same {
            append_str(&mut v, ", ");
        }
        append_str(&mut v, "system ");
        append_str(&mut v, status.system_revision.as_str());
        append_str(&mut v, " -> ");
        append_str(&mut v, status.current_system_revision.as_str());
    }
    proof {
        let f = "framework "@ + status.framework_revision@ + " -> "@ + status.current_framework_revision@;
        let y = "system "@ + status.system_revision@ + " -> "@ + status.current_system_revision@;
        if !fw_same && !sys_same {
            assert(seq![f] + seq![y] =~= seq![f, y]);
            assert(seq![f, y].drop_last() =~= seq![f]);
            assert(join(seq![f, y], ", "@) == join(seq![f], ", "@) + ", "@ + y);
            assert(join(seq![f], ", "@) == f);
            assert(v@ =~= drift_text(*status));
        } else if !fw_same {
            assert(seq![f] + Seq::<Seq<char>>::empty() =~= seq![f]);
            assert(v@ =~= drift_text(*status));
        } else {
            assert(Seq::<Seq<char>>::empty() + seq![y] =~= seq![y]);
            assert(v@ =~= drift_text(*status));
        }
    }
    Err(RevisionDrift { drift: string_of(&v) })
}

/// Pins a project to the current revisions; tells whether anything changed
/// (and so whether `project.yaml` must be saved).
pub fn refresh_revisions(meta: &mut ProjectMeta, framework_revision: String, system_revision: String) -> (changed: bool)
    ensures
        changed == !(old(meta).framework_revision@ == framework_revision@ && old(meta).system_revision@ == system_revision@),
        final(meta).framework_revision@ == framework_revision@,
        final(meta).system_revision@ == system_revision@,
        final(meta).name == old(meta).name && final(meta).system == old(meta).system,
        final(meta).framework == old(meta).framework && final(meta).level == old(meta).level,
{
    if str_eq(meta.framework_revision.as_str(), framework_revision.as_str()) && str_eq(
        meta.system_revision.as_str(),
        system_revision.as_str(),
    ) {
        return false;
    }
    meta.framework_revision = framework_revision;
    meta.system_revision = system_revision;
    true
}

/// `current` or `drifted`.
pub open spec fn drift_word(pinned: Seq<char>, current: Seq<char>) -> Seq<char> {
    if pinned == current {
        "current"@
    } else {
        "drifted"@
    }
}

/// The routing card of `project show`.
pub open spec fn show_text(m: ProjectMeta, s: ProjectRevisionStatus) -> Seq<char> {
    "name\t"@ + m.name@ + "\n"@ + "system\t"@ + m.system@ + "\n"@ + "system_revision\t"@ + m.system_revision@ + "\n"@
        + "system_current_revision\t"@ + s.current_system_revision@ + "\n"@ + "system_revision_status\t"@
        + drift_word(s.system_revision@, s.current_system_revision@) + "\n"@ + "framework\t"@ + m.framework@ + "\n"@
        + "framework_revision\t"@ + m.framework_revision@ + "\n"@ + "framework_current_revision\t"@
        + s.current_framework_revision@ + "\n"@ + "framework_revision_status\t"@ + drift_word(
        s.framework_revision@,
        s.current_framework_revision@,
    ) + "\n"@ + "level\t"@ + (match m.level {
        Some(l) => dec(l as nat),
        None => "-"@,
    }) + "\n"@
}

fn push_drift_word(v: &mut Vec<char>, pinned: &String, current: &String)
    ensures
        final(v)@ == old(v)@ + drift_word(pinned@, current@),
{
    if str_eq(pinned.as_str(), current.as_str()) {
        append_str(v, "current");
    } else {
        append_str(v, "drifted");
    }
}

/// The text of `project show`.
pub fn show(m: &ProjectMeta, s: &ProjectRevisionStatus) -> (t: String)
    ensures
        t@ == show_text(*m, *s),
{
    let mut v: Vec<char> = Vec::new();
    append_str(&mut v, "name\t");
    append_str(&mut v, m.name.as_str());
    append_str(&mut v, "\n");
    append_str(&mut v, "system\t");
    append_str(&mut v, m.system.as_str());
    append_str(&mut v, "\n");
    append_str(&mut v, "system_revision\t");
    append_str(&mut v, m.system_revision.as_str());
    append_str(&mut v, "\n");
    append_str(&mut v, "system_current_revision\t");
    append_str(&mut v, s.current_system_revision.as_str());
    append_str(&mut v, "\n");
    append_str(&mut v, "system_revision_status\t");
    push_drift_word(&mut v, &s.system_revision, &s.current_system_revision);
    append_str(&mut v, "\n");
    append_str(&mut v, "framework\t");
    append_str(&mut v, m.framework.as_str());
    append_str(&mut v, "\n");
    append_str(&mut v, "framework_revision\t");
    append_str(&mut v, m.framework_revision.as_str());
    append_str(&mut v, "\n");
    append_str(&mut v, "framework_current_revision\t");
    append_str(&mut v, s.current_framework_revision.as_str());
    append_str(&mut v, "\n");
    append_str(&mut v, "framework_revision_status\t");
    push_drift_word(&mut v, &s.framework_revision, &s.current_framework_revision);
    append_str(&mut v, "\n");
    append_str(&mut v, "level\t");
    match m.level {
        Some(l) => append_dec(&mut v, l as usize),
        None => append_str(&mut v, "-"),
    }
    append_str(&mut v, "\n");
    assert(v@ =~= show_text(*m, *s));
    string_of(&v)
}

/// The message of `project sync`.
pub open spec fn sync_text(before: ProjectMeta, after: ProjectMeta) -> Seq<char> {
    if before.framework_revision@ == after.framework_revision@ && before.system_revision@ == after.system_revision@ {
        "project KB revisions already current"@
    } else {
        "synced project KB revisions: framework "@ + before.framework_revision@ + " -> "@ + after.framework_revision@
            + ", system "@ + before.system_revision@ + " -> "@ + after.system_revision@
    }
}

/// The message of `project sync`.
pub fn sync_message(before: &ProjectMeta, after: &ProjectMeta) -> (t: String)
    ensures
        t@ == sync_text(*before, *after),
{
    if str_eq(before.framework_revision.as_str(), after.framework_revision.as_str()) && str_eq(
        before.system_revision.as_str(),
        after.system_revision.as_str(),
    ) {
        return owned("project KB revisions already current");
    }
    let mut v: Vec<char> = Vec::new();
    append_str(&mut v, "synced project KB revisions: framework ");
    append_str(&mut v, before.framework_revision.as_str());
    append_str(&mut v, " -> ");
    append_str(&mut v, after.framework_revision.as_str());
    append_str(&mut v, ", system ");
    append_str(&mut v, before.system_revision.as_str());
    append_str(&mut v, " -> ");
    append_str(&mut v, after.system_revision.as_str());
    assert(v@ =~= sync_text(*before, *after));
    string_of(&v)
}

/// After a refresh to the current revisions, the project is current.
pub proof fn lemma_refresh_makes_current(m: ProjectMeta, framework_revision: Seq<char>, system_revision: Seq<char>, s: ProjectRevisionStatus)
    requires
        m.framework_revision@ == framework_revision,
        m.system_revision@ == system_revision,
        s.framework_revision@ == m.framework_revision@,
        s.system_revision@ == m.system_revision@,
        s.current_framework_revision@ == framework_revision,
        s.current_system_revision@ == system_revision,
    ensures
        s.framework_revision@ == s.current_framework_revision@ && s.system_revision@ == s.current_system_revision@,
{
}

} // verus!
