//! Project facts (remediation, exception, decision, finding, note): facts of
//! the assessment itself, kept apart from system facts in the project's
//! `facts/<kind>/PROJ-F-NNNN.md`.

use vstd::prelude::*;

use crate::ids::{max_number, next_id, next_numbered_id};
use crate::model::{
    clone_opt_id, fact_kind_from_text, fact_kind_text, id_text, parse_id, ControlId, ControlIdFault, Date,
    IngestMetadata, ModelError, ProjectFactKind,
};
use crate::project::matrix::{has_key, Matrix};
use crate::system::fact::{fact_body, fact_path, make_fact_body, make_fact_path};
use crate::text::{append_str, dec, owned, str_eq, string_of, texts};

verus! {

/// The frontmatter of a project fact file.
#[derive(Debug, Clone)]
pub struct ProjectFactFrontmatter {
    pub id: String,
    pub kind: ProjectFactKind,
    pub title: String,
    pub tags: Vec<String>,
    pub control: Option<ControlId>,
    pub created_at: Date,
    pub ingest: Option<IngestMetadata>,
}

/// One project fact in the index.
#[derive(Debug, Clone)]
pub struct ProjectFactIndexEntry {
    pub id: String,
    pub kind: ProjectFactKind,
    pub title: String,
    pub control: Option<ControlId>,
    pub external_key: Option<String>,
    /// Path relative to the project's `facts/` directory.
    pub file: String,
}

/// The index of the project's facts.
#[derive(Debug, Clone)]
pub struct ProjectFactIndex {
    pub facts: Vec<ProjectFactIndexEntry>,
}

/// Errors about project facts.
#[derive(Debug, Clone)]
pub enum ProjectFactError {
    /// The kind is not one of 整改/例外/决策/发现/备注.
    Kind(ModelError),
    /// The control is not `<framework>:<control_id>`.
    BadControl(ModelError),
    /// The control has no row in the project matrix.
    NotInMatrix(ControlId),
    /// No project fact with this id.
    NotFound(String),
    /// The fact (in its index entry) is already bound to another control.
    AlreadyBound { id: String, existing: ControlId },
    /// The fact file is already bound to another control.
    FileAlreadyBound { id: String, existing: ControlId },
}

/// The ids of the facts, in order.
pub open spec fn project_fact_ids(facts: Seq<ProjectFactIndexEntry>) -> Seq<Seq<char>> {
    Seq::new(facts.len(), |i: int| facts[i].id@)
}

/// The prefix of project fact ids.
pub open spec fn project_fact_prefix() -> Seq<char> {
    "PROJ-F-"@
}

fn ids_of(facts: &Vec<ProjectFactIndexEntry>) -> (r: Vec<String>)
    ensures
        texts(r@) == project_fact_ids(facts@),
{
    let mut r: Vec<String> = Vec::new();
    let mut i: usize = 0;
    while i < facts.len()
        invariant
            i <= facts@.len(),
            r@.len() == i,
            forall|j: int| 0 <= j < i ==> #[trigger] r@[j]@ == facts@[j].id@,
        decreases facts.len() - i,
    {
        r.push(facts[i].id.clone());
        i += 1;
    }
    assert(texts(r@) =~= project_fact_ids(facts@));
    r
}

/// The id after the largest `PROJ-F-` number in the index.
pub fn next_id_of(index: &ProjectFactIndex) -> (r: String)
    requires
        max_number(project_fact_ids(index.facts@), project_fact_prefix()) < u32::MAX,
    ensures
        r@ == next_id(project_fact_ids(index.facts@), project_fact_prefix()),
{
    let ids = ids_of(&index.facts);
    next_numbered_id(&ids, "PROJ-F-")
}

/// A project fact ready to be written.
#[derive(Debug, Clone)]
pub struct NewProjectFact {
    pub id: String,
    pub frontmatter: ProjectFactFrontmatter,
    pub body: String,
    pub relative_path: String,
}

/// Adds a project fact written by hand: the next id, a kind read from its
/// name, an optional control that must have a matrix row, created today.
pub fn add(index: &mut ProjectFactIndex, matrix: &Matrix, kind: &str, title: &str, control: Option<&str>, body: &str, today: Date) -> (r: Result<NewProjectFact, ProjectFactError>)
    requires
        max_number(project_fact_ids(old(index).facts@), project_fact_prefix()) < u32::MAX,
    ensures
        fact_kind_from_text(kind@) is None ==> (r matches Err(ProjectFactError::Kind(_))) && *final(index) == *old(index),
        fact_kind_from_text(kind@) is Some && (control matches Some(c) && parse_id(c@) is Err) ==> (r matches Err(
            ProjectFactError::BadControl(_),
        )) && *final(index) == *old(index),
        fact_kind_from_text(kind@) is Some && (control matches Some(c) && (parse_id(c@) matches Ok(k) && !has_key(matrix.keys(), k)))
            ==> (r matches Err(ProjectFactError::NotInMatrix(_))) && *final(index) == *old(index),
        r is Ok <==> fact_kind_from_text(kind@) is Some && (control matches Some(c) ==> (parse_id(c@) matches Ok(k) && has_key(matrix.keys(), k))),
        r matches Ok(f) ==> {
            let id = next_id(project_fact_ids(old(index).facts@), project_fact_prefix());
            &&& f.id@ == id
            &&& !project_fact_ids(old(index).facts@).contains(id)
            &&& fact_kind_from_text(kind@) == Some(f.frontmatter.kind)
            &&& f.frontmatter.id@ == id
            &&& f.frontmatter.title@ == title@
            &&& f.frontmatter.tags@.len() == 0
            &&& (match control {
                Some(c) => f.frontmatter.control matches Some(cid) && parse_id(c@) == Ok::<(Seq<char>, Seq<char>), ControlIdFault>(cid@),
                None => f.frontmatter.control is None,
            })
            &&& f.frontmatter.created_at == today
            &&& f.frontmatter.ingest is None
            &&& f.body@ == fact_body(title@, body@)
            &&& f.relative_path@ == fact_path(fact_kind_text(f.frontmatter.kind), id)
            &&& final(index).facts@.len() == old(index).facts@.len() + 1
            &&& final(index).facts@.take(old(index).facts@.len() as int) == old(index).facts@
            &&& ({
                let e = final(index).facts@.last();
                &&& e.id@ == id && e.kind == f.frontmatter.kind && e.title@ == title@
                &&& e.control == f.frontmatter.control && e.external_key is None
                &&& e.file@ == f.relative_path@
            })
        },
{
    proof {
        crate::ids::lemma_next_id_is_fresh(project_fact_ids(old(index).facts@), project_fact_prefix());
    }
    let k = match ProjectFactKind::parse(kind) {
        Ok(k) => k,
        Err(e) => {
            return Err(ProjectFactError::Kind(e));
        },
    };
    let id = next_id_of(index);
    let cid = match control {
        Some(c) => match ControlId::parse(c) {
            Ok(cid) => {
                if !matrix.contains(&cid) {
                    proof {
                        crate::project::matrix::lemma_has_key(matrix.keys(), cid@);
                    }
                    return Err(ProjectFactError::NotInMatrix(cid));
                }
                proof {
                    crate::project::matrix::lemma_has_key(matrix.keys(), cid@);
                }
                Some(cid)
            },
            Err(e) => {
                return Err(ProjectFactError::BadControl(e));
            },
        },
        None => None,
    };
    let fm = ProjectFactFrontmatter {
        id: id.clone(),
        kind: k,
        title: owned(title),
        tags: Vec::new(),
        control: clone_opt_id(&cid),
        created_at: today,
        ingest: None,
    };
    let text = make_fact_body(title, body);
    let rel = make_fact_path(k.as_str(), id.as_str());
    index.facts.push(
        ProjectFactIndexEntry {
            id: id.clone(),
            kind: k,
            title: owned(title),
            control: cid,
            external_key: None,
            file: rel.clone(),
        },
    );
    assert(index.facts@.take(old(index).facts@.len() as int) == old(index).facts@);
    Ok(NewProjectFact { id, frontmatter: fm, body: text, relative_path: rel })
}

/// The position of the first project fact with this id, or -1.
pub open spec fn project_fact_pos(facts: Seq<ProjectFactIndexEntry>, id: Seq<char>) -> int
    decreases facts.len(),
{
    if facts.len() == 0 {
        -1
    } else if facts[0].id@ == id {
        0
    } else {
        let p = project_fact_pos(facts.drop_first(), id);
        if p < 0 {
            -1
        } else {
            p + 1
        }
    }
}

proof fn lemma_project_fact_pos(facts: Seq<ProjectFactIndexEntry>, id: Seq<char>)
    ensures
        -1 <= project_fact_pos(facts, id) < facts.len(),
        project_fact_pos(facts, id) >= 0 ==> facts[project_fact_pos(facts, id)].id@ == id,
        project_fact_pos(facts, id) >= 0 ==> forall|j: int|
            0 <= j < project_fact_pos(facts, id) ==> (#[trigger] facts[j]).id@ != id,
        project_fact_pos(facts, id) < 0 ==> forall|j: int| 0 <= j < facts.len() ==> (#[trigger] facts[j]).id@ != id,
    decreases facts.len(),
{
    if facts.len() > 0 && facts[0].id@ != id {
        let t = facts.drop_first();
        lemma_project_fact_pos(t, id);
        assert forall|j: int| 1 <= j < facts.len() implies facts[j] == t[j - 1] by {}
    }
}

/// The position of the project fact with this id (the first one).
pub fn find_fact(index: &ProjectFactIndex, id: &str) -> (r: Option<usize>)
    ensures
        r matches Some(i) ==> i as int == project_fact_pos(index.facts@, id@) && i < index.facts@.len(),
        r is None ==> project_fact_pos(index.facts@, id@) < 0,
{
    proof {
        lemma_project_fact_pos(index.facts@, id@);
    }
    let mut i: usize = 0;
    while i < index.facts.len()
        invariant
            i <= index.facts@.len(),
            forall|j: int| 0 <= j < i ==> (#[trigger] index.facts@[j]).id@ != id@,
            -1 <= project_fact_pos(index.facts@, id@) < index.facts@.len(),
            project_fact_pos(index.facts@, id@) >= 0 ==> index.facts@[project_fact_pos(index.facts@, id@)].id@ == id@,
            project_fact_pos(index.facts@, id@) >= 0 ==> forall|j: int|
                0 <= j < project_fact_pos(index.facts@, id@) ==> (#[trigger] index.facts@[j]).id@ != id@,
            project_fact_pos(index.facts@, id@) < 0 ==> forall|j: int|
                0 <= j < index.facts@.len() ==> (#[trigger] index.facts@[j]).id@ != id@,
        decreases index.facts.len() - i,
    {
        if str_eq(index.facts[i].id.as_str(), id) {
            return Some(i);
        }
        i += 1;
    }
    None
}

/// Whether an optional control is exactly `id`.
pub open spec fn bound_to(c: Option<ControlId>, id: (Seq<char>, Seq<char>)) -> bool {
    c matches Some(x) && x@ == id
}

/// One line of `fact find`.
pub open spec fn find_line(e: ProjectFactIndexEntry) -> Seq<char> {
    e.id@ + "  ["@ + fact_kind_text(e.kind) + "]  "@ + e.title@ + "\n"@
}

/// The lines of the project facts bound to `id`, in index order.
pub open spec fn find_lines(facts: Seq<ProjectFactIndexEntry>, id: (Seq<char>, Seq<char>)) -> Seq<char>
    decreases facts.len(),
{
    if facts.len() == 0 {
        Seq::empty()
    } else {
        find_lines(facts.drop_last(), id) + if bound_to(facts.last().control, id) {
            find_line(facts.last())
        } else {
            Seq::empty()
        }
    }
}

/// How many project facts are bound to `id`.
pub open spec fn find_count(facts: Seq<ProjectFactIndexEntry>, id: (Seq<char>, Seq<char>)) -> nat
    decreases facts.len(),
{
    if facts.len() == 0 {
        0
    } else {
        find_count(facts.drop_last(), id) + if bound_to(facts.last().control, id) {
            1nat
        } else {
            0nat
        }
    }
}

/// The text of `fact find`.
pub open spec fn find_text(facts: Seq<ProjectFactIndexEntry>, id: (Seq<char>, Seq<char>)) -> Seq<char> {
    find_lines(facts, id) + "\n"@ + dec(find_count(facts, id)) + " project facts related to "@ + id_text(id)
}

fn is_bound_to(c: &Option<ControlId>, id: &ControlId) -> (b: bool)
    ensures
        b == bound_to(*c, id@),
{
    match c {
        Some(x) => x.same(id),
        None => false,
    }
}

/// Lists the project facts bound to a control.
pub fn find(index: &ProjectFactIndex, control: &ControlId) -> (s: String)
    ensures
        s@ == find_text(index.facts@, control@),
{
    let facts = &index.facts;
    let mut v: Vec<char> = Vec::new();
    let mut n: usize = 0;
    let mut i: usize = 0;
    while i < facts.len()
        invariant
            i <= facts@.len(),
            v@ == find_lines(facts@.take(i as int), control@),
            n == find_count(facts@.take(i as int), control@),
            n <= i,
        decreases facts.len() - i,
    {
        assert(facts@.take(i + 1).drop_last() == facts@.take(i as int));
        assert(facts@.take(i + 1).last() == facts@[i as int]);
        let e = &facts[i];
        if is_bound_to(&e.control, control) {
            append_str(&mut v, e.id.as_str());
            append_str(&mut v, "  [");
            append_str(&mut v, e.kind.as_str());
            append_str(&mut v, "]  ");
            append_str(&mut v, e.title.as_str());
            append_str(&mut v, "\n");
            n += 1;
        }
        i += 1;
    }
    assert(facts@.take(facts@.len() as int) == facts@);
    append_str(&mut v, "\n");
    crate::text::append_dec(&mut v, n);
    append_str(&mut v, " project facts related to ");
    let t = control.to_text();
    append_str(&mut v, t.as_str());
    string_of(&v)
}

/// What linking a project fact to a control does.
#[derive(Debug, Clone, Copy, PartialEq, Eq, Structural)]
pub enum LinkOutcome {
    /// Index entry and file were already bound to the control.
    AlreadyLinked,
    /// Both now record the control.
    Linked,
}

/// Binds a project fact to a control: a fact belongs to one control at most,
/// so a fact bound elsewhere (in its index entry or its file) is refused;
/// a fact without a control gets this one in both places.
pub fn link_control(index: &mut ProjectFactIndex, fm: &mut ProjectFactFrontmatter, i: usize, control: &ControlId) -> (r: Result<LinkOutcome, ProjectFactError>)
    requires
        i < old(index).facts@.len(),
    ensures
        (old(index).facts@[i as int].control matches Some(x) && x@ != control@) ==> (r matches Err(
            ProjectFactError::AlreadyBound { .. },
        )) && *final(index) == *old(index) && *final(fm) == *old(fm),
        !(old(index).facts@[i as int].control matches Some(x) && x@ != control@) && (old(fm).control matches Some(
            x,
        ) && x@ != control@) ==> (r matches Err(ProjectFactError::FileAlreadyBound { .. })) && *final(index)
            == *old(index) && *final(fm) == *old(fm),
        r matches Ok(LinkOutcome::AlreadyLinked) ==> bound_to(old(index).facts@[i as int].control, control@)
            && bound_to(old(fm).control, control@) && *final(index) == *old(index) && *final(fm) == *old(fm),
        r matches Ok(LinkOutcome::Linked) ==> {
            &&& final(index).facts@.len() == old(index).facts@.len()
            &&& forall|j: int| 0 <= j < old(index).facts@.len() && j != i ==> #[trigger] final(index).facts@[j] == old(index).facts@[j]
            &&& bound_to(final(index).facts@[i as int].control, control@)
            &&& bound_to(final(fm).control, control@)
            &&& ({
                let e = old(index).facts@[i as int];
                let e2 = final(index).facts@[i as int];
                e2.id == e.id && e2.kind == e.kind && e2.title == e.title && e2.external_key == e.external_key
                    && e2.file == e.file
            })
            &&& final(fm).id == old(fm).id && final(fm).kind == old(fm).kind && final(fm).title == old(fm).title
            &&& final(fm).tags == old(fm).tags && final(fm).created_at == old(fm).created_at && final(fm).ingest == old(fm).ingest
        },
        r is Ok <==> !(old(index).facts@[i as int].control matches Some(x) && x@ != control@) && !(old(fm).control matches Some(
            x,
        ) && x@ != control@),
{
    match &index.facts[i].control {
        Some(existing) => {
            if !existing.same(control) {
                return Err(
                    ProjectFactError::AlreadyBound { id: index.facts[i].id.clone(), existing: existing.duplicate() },
                );
            }
        },
        None => {},
    }
    match &fm.control {
        Some(existing) => {
            if !existing.same(control) {
                return Err(
                    ProjectFactError::FileAlreadyBound { id: index.facts[i].id.clone(), existing: existing.duplicate() },
                );
            }
        },
        None => {},
    }
    if is_bound_to(&index.facts[i].control, control) && is_bound_to(&fm.control, control) {
        return Ok(LinkOutcome::AlreadyLinked);
    }
    let mut e = index.facts.remove(i);
    e.control = Some(control.duplicate());
    index.facts.insert(i, e);
    fm.control = Some(control.duplicate());
    Ok(LinkOutcome::Linked)
}

} // verus!
