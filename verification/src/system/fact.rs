//! System facts: factual descriptions of an audited system, kept in the shared
//! `system/<slug>/` knowledge base, one Markdown file with frontmatter each,
//! listed in a compact `index.yaml`.

use vstd::prelude::*;

use crate::ids::{max_number, next_id, next_numbered_id};
use crate::paths::{
    is_safe_relative, is_segment_char, lemma_nested_name_is_safe_relative, lemma_safe_segment_shape, safe_path_component,
    segment_of,
};
use crate::model::{clone_ids, id_text, ControlId, Date, IngestMetadata, ModelError};
use crate::text::{append_str, dec, owned, str_eq, string_of, texts};

verus! {

/// Where a fact came from.
#[derive(Debug, Clone, Copy, PartialEq, Eq, Structural)]
pub enum FactSourceType {
    Doc,
    Interview,
    Scan,
    User,
}

/// The persisted name of a source type.
pub open spec fn source_type_text(t: FactSourceType) -> Seq<char> {
    match t {
        FactSourceType::Doc => "doc"@,
        FactSourceType::Interview => "interview"@,
        FactSourceType::Scan => "scan"@,
        FactSourceType::User => "user"@,
    }
}

/// Reading a source type name.
pub open spec fn source_type_from_text(s: Seq<char>) -> Option<FactSourceType> {
    if s == "doc"@ {
        Some(FactSourceType::Doc)
    } else if s == "interview"@ {
        Some(FactSourceType::Interview)
    } else if s == "scan"@ {
        Some(FactSourceType::Scan)
    } else if s == "user"@ {
        Some(FactSourceType::User)
    } else {
        None
    }
}

/// Reading a source type's name gives back the type that was written, and a
/// name that is read is the name of the type it gives.
pub proof fn lemma_source_type_text_roundtrip(t: FactSourceType, s: Seq<char>)
    ensures
        source_type_from_text(source_type_text(t)) == Some(t),
        source_type_from_text(s) matches Some(u) ==> source_type_text(u) == s,
{
    reveal_strlit("doc");
    reveal_strlit("interview");
    reveal_strlit("scan");
    reveal_strlit("user");
    assert("doc"@[0] == 'd' && "interview"@[0] == 'i' && "scan"@[0] == 's' && "user"@[0] == 'u');
}

/// Errors about system facts.
#[derive(Debug, Clone)]
pub enum FactError {
    /// A source type other than doc/interview/scan/user.
    UnknownSourceType(String),
    /// A related control that is not `<framework>:<control_id>`.
    BadControl(ModelError),
    /// No fact with this id.
    NotFound(String),
}

impl FactSourceType {
    pub fn as_str(&self) -> (s: &'static str)
        ensures
            s@ == source_type_text(*self),
    {
        match self {
            FactSourceType::Doc => "doc",
            FactSourceType::Interview => "interview",
            FactSourceType::Scan => "scan",
            FactSourceType::User => "user",
        }
    }

    /// Reads `doc`, `interview`, `scan` or `user`.
    pub fn parse(s: &str) -> (r: Result<FactSourceType, FactError>)
        ensures
            r matches Ok(t) ==> source_type_from_text(s@) == Some(t),
            r matches Err(e) ==> source_type_from_text(s@) is None && (e matches FactError::UnknownSourceType(x)
                && x@ == s@),
    {
        if str_eq(s, "doc") {
            Ok(FactSourceType::Doc)
        } else if str_eq(s, "interview") {
            Ok(FactSourceType::Interview)
        } else if str_eq(s, "scan") {
            Ok(FactSourceType::Scan)
        } else if str_eq(s, "user") {
            Ok(FactSourceType::User)
        } else {
            Err(FactError::UnknownSourceType(owned(s)))
        }
    }
}

/// How sure the collector is of a fact.
#[derive(Debug, Clone, Copy, PartialEq, Eq, Structural)]
pub enum Confidence {
    High,
    Medium,
    Low,
}

/// Whether a fact still describes the system.
#[derive(Debug, Clone, Copy, PartialEq, Eq, Structural)]
pub enum FactStatus {
    Current,
    Stale,
    Superseded,
}

/// Provenance of a fact.
#[derive(Debug, Clone)]
pub struct FactSource {
    pub kind: FactSourceType,
    pub reference: String,
    pub collected_at: Date,
    pub collector: String,
}

/// The frontmatter of a fact file.
#[derive(Debug, Clone)]
pub struct FactFrontmatter {
    pub id: String,
    pub domain: String,
    pub title: String,
    pub tags: Vec<String>,
    pub source: FactSource,
    pub confidence: Confidence,
    pub related_controls: Vec<ControlId>,
    pub status: FactStatus,
    pub supersedes: Vec<String>,
    pub ingest: Option<IngestMetadata>,
}

/// One fact in the system index.
#[derive(Debug, Clone)]
pub struct FactIndexEntry {
    pub id: String,
    pub domain: String,
    pub title: String,
    pub tags: Vec<String>,
    pub related_controls: Vec<ControlId>,
    pub external_key: Option<String>,
    /// Path relative to the system directory.
    pub file: String,
}

/// The index of a system: its display name and its facts.
#[derive(Debug, Clone)]
pub struct FactIndex {
    pub display_name: Option<String>,
    pub facts: Vec<FactIndexEntry>,
}

/// The ids of the facts, in order.
pub open spec fn fact_ids(facts: Seq<FactIndexEntry>) -> Seq<Seq<char>> {
    Seq::new(facts.len(), |i: int| facts[i].id@)
}

/// The prefix of system fact ids.
pub open spec fn fact_prefix() -> Seq<char> {
    "SYS-F-"@
}

fn ids_of(facts: &Vec<FactIndexEntry>) -> (r: Vec<String>)
    ensures
        texts(r@) == fact_ids(facts@),
{
    let mut r: Vec<String> = Vec::new();
    let mut i: usize = 0;
    while i < facts.len()
        invariant
            i <= facts@.len(),
            r@.len() == i,
            forall|j: int| 0 <= j < i ==> #[trigger] r@[j]@ == facts@[j].id@,
        decreases facts.len() - i,
    {
        r.push(facts[i].id.clone());
        i += 1;
    }
    assert(texts(r@) =~= fact_ids(facts@));
    r
}

/// The id after the largest `SYS-F-` number in the index.
pub fn next_fact_id(index: &FactIndex) -> (r: String)
    requires
        max_number(fact_ids(index.facts@), fact_prefix()) < u32::MAX,
    ensures
        r@ == next_id(fact_ids(index.facts@), fact_prefix()),
{
    let ids = ids_of(&index.facts);
    next_numbered_id(&ids, "SYS-F-")
}

/// A fact added by hand.
#[derive(Debug, Clone)]
pub struct FactDraft {
    pub domain: String,
    pub title: String,
    pub body: String,
    pub control: Option<String>,
    pub kind: String,
    pub reference: Option<String>,
}

/// A fact ready to be written: its id, frontmatter, body and path relative to
/// the system directory.
#[derive(Debug, Clone)]
pub struct NewFact {
    pub id: String,
    pub frontmatter: FactFrontmatter,
    pub body: String,
    pub relative_path: String,
}

/// The body of a fact file: a title heading and the text.
pub open spec fn fact_body(title: Seq<char>, body: Seq<char>) -> Seq<char> {
    "# "@ + title + "\n\n"@ + body + "\n"@
}

/// `<dir>/<id>.md`.
pub open spec fn fact_path(dir: Seq<char>, id: Seq<char>) -> Seq<char> {
    dir + "/"@ + id + ".md"@
}

/// `<domain segment>/<id>.md`: where a system fact of `domain` is stored,
/// the domain turned into one safe path segment.
pub open spec fn system_fact_path(domain: Seq<char>, id: Seq<char>) -> Seq<char> {
    fact_path(segment_of(domain), id)
}

/// A system fact file stays inside its system directory, whatever its domain:
/// the domain becomes one safe segment and the file name is `<id>.md`.
pub proof fn lemma_system_fact_path_is_safe(domain: Seq<char>, id: Seq<char>)
    requires
        !id.contains('/'),
    ensures
        is_safe_relative(system_fact_path(domain, id)),
{
    let a = segment_of(domain);
    lemma_safe_segment_shape(domain, vstd::utf8::encode_utf8(domain));
    assert(!a.contains('/')) by {
        if a.contains('/') {
            let k = choose|k: int| 0 <= k < a.len() && a[k] == '/';
            assert(is_segment_char(a[k]));
        }
    }
    reveal_strlit("/");
    reveal_strlit(".md");
    let b = id + ".md"@;
    assert(!b.contains('/')) by {
        if b.contains('/') {
            let k = choose|k: int| 0 <= k < b.len() && b[k] == '/';
            if k < id.len() {
                assert(id[k] == '/');
            }
        }
    }
    assert(b.len() >= 3);
    assert(b != seq!['.']);
    assert(b != seq!['.', '.']);
    lemma_nested_name_is_safe_relative(a, b);
    assert(system_fact_path(domain, id) =~= a + seq!['/'] + b);
}

/// The body of a fact file.
pub fn make_fact_body(title: &str, body: &str) -> (s: String)
    ensures
        s@ == fact_body(title@, body@),
{
    let mut v: Vec<char> = Vec::new();
    append_str(&mut v, "# ");
    append_str(&mut v, title);
    append_str(&mut v, "\n\n");
    append_str(&mut v, body);
    append_str(&mut v, "\n");
    string_of(&v)
}

/// `<dir>/<id>.md`.
pub fn make_fact_path(dir: &str, id: &str) -> (s: String)
    ensures
        s@ == fact_path(dir@, id@),
{
    let mut v: Vec<char> = Vec::new();
    append_str(&mut v, dir);
    append_str(&mut v, "/");
    append_str(&mut v, id);
    append_str(&mut v, ".md");
    string_of(&v)
}

/// Adds a fact written by hand to the index: the next id, the source type
/// read from the draft, the control (if any) as its only relation, medium
/// confidence and current status, collected today by the agent.
pub fn create_fact(index: &mut FactIndex, draft: &FactDraft, today: Date) -> (r: Result<NewFact, FactError>)
    requires
        max_number(fact_ids(old(index).facts@), fact_prefix()) < u32::MAX,
    ensures
        source_type_from_text(draft.kind@) is None ==> (r matches Err(FactError::UnknownSourceType(k)) && k@
            == draft.kind@) && *final(index) == *old(index),
        source_type_from_text(draft.kind@) is Some && (draft.control matches Some(c)
            && crate::model::parse_id(c@) is Err) ==> (r matches Err(FactError::BadControl(_)))
            && *final(index) == *old(index),
        r is Ok <==> (source_type_from_text(draft.kind@) is Some && (draft.control matches Some(c)
            ==> crate::model::parse_id(c@) is Ok)),
        r matches Ok(f) ==> {
            let id = next_id(fact_ids(old(index).facts@), fact_prefix());
            &&& f.id@ == id
            &&& !fact_ids(old(index).facts@).contains(id)
            &&& source_type_from_text(draft.kind@) == Some(f.frontmatter.source.kind)
            &&& f.frontmatter.id@ == id
            &&& f.frontmatter.domain@ == draft.domain@
            &&& f.frontmatter.title@ == draft.title@
            &&& f.frontmatter.tags@.len() == 0
            &&& f.frontmatter.source.reference@ == (match draft.reference {
                Some(x) => x@,
                None => "manual"@,
            })
            &&& f.frontmatter.source.collected_at == today
            &&& f.frontmatter.source.collector@ == "agent"@
            &&& f.frontmatter.confidence == Confidence::Medium
            &&& f.frontmatter.status == FactStatus::Current
            &&& f.frontmatter.supersedes@.len() == 0
            &&& f.frontmatter.ingest is None
            &&& (match draft.control {
                Some(c) => f.frontmatter.related_controls@.len() == 1 && crate::model::parse_id(c@) == Ok::<
                    (Seq<char>, Seq<char>),
                    crate::model::ControlIdFault,
                >(f.frontmatter.related_controls@[0]@),
                None => f.frontmatter.related_controls@.len() == 0,
            })
            &&& f.body@ == fact_body(draft.title@, draft.body@)
            &&& f.relative_path@ == system_fact_path(draft.domain@, id)
            &&& is_safe_relative(f.relative_path@)
            &&& final(index).display_name == old(index).display_name
            &&& final(index).facts@.len() == old(index).facts@.len() + 1
            &&& final(index).facts@.take(old(index).facts@.len() as int) == old(index).facts@
            &&& ({
                let e = final(index).facts@.last();
                &&& e.id@ == id
                &&& e.domain@ == draft.domain@
                &&& e.title@ == draft.title@
                &&& e.tags@.len() == 0
                &&& e.related_controls@ == f.frontmatter.related_controls@
                &&& e.external_key is None
                &&& e.file@ == f.relative_path@
            })
        },
{
    proof {
        crate::ids::lemma_next_id_is_fresh(fact_ids(old(index).facts@), fact_prefix());
    }
    let id = next_fact_id(index);
    let kind = match FactSourceType::parse(draft.kind.as_str()) {
        Ok(k) => k,
        Err(e) => {
            return Err(e);
        },
    };
    let mut related: Vec<ControlId> = Vec::new();
    match &draft.control {
        Some(c) => {
            match ControlId::parse(c.as_str()) {
                Ok(cid) => related.push(cid),
                Err(e) => {
                    return Err(FactError::BadControl(e));
                },
            }
        },
        None => {},
    }
    let reference = match &draft.reference {
        Some(x) => x.clone(),
        None => owned("manual"),
    };
    let fm = FactFrontmatter {
        id: id.clone(),
        domain: draft.domain.clone(),
        title: draft.title.clone(),
        tags: Vec::new(),
        source: FactSource { kind, reference, collected_at: today, collector: owned("agent") },
        confidence: Confidence::Medium,
        related_controls: clone_ids(&related),
        status: FactStatus::Current,
        supersedes: Vec::new(),
        ingest: None,
    };
    let body = make_fact_body(draft.title.as_str(), draft.body.as_str());
    let segment = safe_path_component(draft.domain.as_str());
    let rel = make_fact_path(segment.as_str(), id.as_str());
    index.facts.push(
        FactIndexEntry {
            id: id.clone(),
            domain: draft.domain.clone(),
            title: draft.title.clone(),
            tags: Vec::new(),
            related_controls: related,
            external_key: None,
            file: rel.clone(),
        },
    );
    assert(index.facts@.take(old(index).facts@.len() as int) == old(index).facts@);
    proof {
        reveal_strlit("SYS-F-");
        crate::ids::lemma_numbered_id_has_no_slash(fact_prefix(), max_number(fact_ids(old(index).facts@), fact_prefix()) + 1);
        lemma_system_fact_path_is_safe(draft.domain@, id@);
    }
    Ok(NewFact { id, frontmatter: fm, body, relative_path: rel })
}

/// The position of the first fact with this id, or -1.
pub open spec fn fact_pos(facts: Seq<FactIndexEntry>, id: Seq<char>) -> int
    decreases facts.len(),
{
    if facts.len() == 0 {
        -1
    } else if facts[0].id@ == id {
        0
    } else {
        let p = fact_pos(facts.drop_first(), id);
        if p < 0 {
            -1
        } else {
            p + 1
        }
    }
}

proof fn lemma_fact_pos(facts: Seq<FactIndexEntry>, id: Seq<char>)
    ensures
        -1 <= fact_pos(facts, id) < facts.len(),
        fact_pos(facts, id) >= 0 ==> facts[fact_pos(facts, id)].id@ == id,
        fact_pos(facts, id) >= 0 ==> forall|j: int| 0 <= j < fact_pos(facts, id) ==> (#[trigger] facts[j]).id@ != id,
        fact_pos(facts, id) < 0 ==> forall|j: int| 0 <= j < facts.len() ==> (#[trigger] facts[j]).id@ != id,
    decreases facts.len(),
{
    if facts.len() > 0 && facts[0].id@ != id {
        let t = facts.drop_first();
        lemma_fact_pos(t, id);
        assert forall|j: int| 1 <= j < facts.len() implies facts[j] == t[j - 1] by {}
    }
}

/// The position of the fact with this id (the first one).
pub fn find_fact(index: &FactIndex, id: &str) -> (r: Option<usize>)
    ensures
        r matches Some(i) ==> i as int == fact_pos(index.facts@, id@) && i < index.facts@.len(),
        r is None ==> fact_pos(index.facts@, id@) < 0,
{
    proof {
        lemma_fact_pos(index.facts@, id@);
    }
    let mut i: usize = 0;
    while i < index.facts.len()
        invariant
            i <= index.facts@.len(),
            forall|j: int| 0 <= j < i ==> (#[trigger] index.facts@[j]).id@ != id@,
            -1 <= fact_pos(index.facts@, id@) < index.facts@.len(),
            fact_pos(index.facts@, id@) >= 0 ==> index.facts@[fact_pos(index.facts@, id@)].id@ == id@,
            fact_pos(index.facts@, id@) >= 0 ==> forall|j: int|
                0 <= j < fact_pos(index.facts@, id@) ==> (#[trigger] index.facts@[j]).id@ != id@,
            fact_pos(index.facts@, id@) < 0 ==> forall|j: int|
                0 <= j < index.facts@.len() ==> (#[trigger] index.facts@[j]).id@ != id@,
        decreases index.facts.len() - i,
    {
        if str_eq(index.facts[i].id.as_str(), id) {
            return Some(i);
        }
        i += 1;
    }
    None
}

/// Whether a list of identifiers holds one equal to `id`.
pub open spec fn has_control(cs: Seq<ControlId>, id: (Seq<char>, Seq<char>)) -> bool {
    exists|k: int| 0 <= k < cs.len() && (#[trigger] cs[k])@ == id
}

fn contains_control(cs: &Vec<ControlId>, id: &ControlId) -> (b: bool)
    ensures
        b == has_control(cs@, id@),
{
    let mut k: usize = 0;
    while k < cs.len()
        invariant
            k <= cs@.len(),
            forall|j: int| 0 <= j < k ==> (#[trigger] cs@[j])@ != id@,
        decreases cs.len() - k,
    {
        if cs[k].same(id) {
            return true;
        }
        k += 1;
    }
    false
}

/// One line of `system find`.
pub open spec fn find_line(e: FactIndexEntry) -> Seq<char> {
    e.id@ + "  "@ + e.domain@ + "  "@ + e.title@ + "\n"@
}

/// The lines of the facts related to `id`, in index order.
pub open spec fn find_lines(facts: Seq<FactIndexEntry>, id: (Seq<char>, Seq<char>)) -> Seq<char>
    decreases facts.len(),
{
    if facts.len() == 0 {
        Seq::empty()
    } else {
        find_lines(facts.drop_last(), id) + if has_control(facts.last().related_controls@, id) {
            find_line(facts.last())
        } else {
            Seq::empty()
        }
    }
}

/// How many facts are related to `id`.
pub open spec fn find_count(facts: Seq<FactIndexEntry>, id: (Seq<char>, Seq<char>)) -> nat
    decreases facts.len(),
{
    if facts.len() == 0 {
        0
    } else {
        find_count(facts.drop_last(), id) + if has_control(facts.last().related_controls@, id) {
            1nat
        } else {
            0nat
        }
    }
}

/// The text of `system find`.
pub open spec fn find_text(facts: Seq<FactIndexEntry>, id: (Seq<char>, Seq<char>), slug: Seq<char>) -> Seq<char> {
    find_lines(facts, id) + "\n"@ + dec(find_count(facts, id)) + " facts in system `"@ + slug + "` related to "@
        + id_text(id)
}

/// Lists the facts of a system that are related to a control.
pub fn find(index: &FactIndex, control: &ControlId, slug: &str) -> (s: String)
    ensures
        s@ == find_text(index.facts@, control@, slug@),
{
    let facts = &index.facts;
    let mut v: Vec<char> = Vec::new();
    let mut n: usize = 0;
    let mut i: usize = 0;
    while i < facts.len()
        invariant
            i <= facts@.len(),
            v@ == find_lines(facts@.take(i as int), control@),
            n == find_count(facts@.take(i as int), control@),
            n <= i,
        decreases facts.len() - i,
    {
        assert(facts@.take(i + 1).drop_last() == facts@.take(i as int));
        assert(facts@.take(i + 1).last() == facts@[i as int]);
        let e = &facts[i];
        if contains_control(&e.related_controls, control) {
            append_str(&mut v, e.id.as_str());
            append_str(&mut v, "  ");
            append_str(&mut v, e.domain.as_str());
            append_str(&mut v, "  ");
            append_str(&mut v, e.title.as_str());
            append_str(&mut v, "\n");
            n += 1;
        }
        i += 1;
    }
    assert(facts@.take(facts@.len() as int) == facts@);
    append_str(&mut v, "\n");
    crate::text::append_dec(&mut v, n);
    append_str(&mut v, " facts in system `");
    append_str(&mut v, slug);
    append_str(&mut v, "` related to ");
    let t = control.to_text();
    append_str(&mut v, t.as_str());
    string_of(&v)
}

/// A list of identifiers after relating `id`: unchanged when already there,
/// else with `id` appended.
pub open spec fn related(cs: Seq<ControlId>, id: ControlId) -> Seq<ControlId> {
    if has_control(cs, id@) {
        cs
    } else {
        cs.push(id)
    }
}

/// Relates a control to a list, once.
pub fn relate(cs: &mut Vec<ControlId>, id: &ControlId)
    ensures
        final(cs)@ == related(old(cs)@, *id),
{
    if !contains_control(cs, id) {
        cs.push(id.duplicate());
    }
}

/// Relates a fact of the index to a control, keeping the relation unique.
pub fn link_control(index: &mut FactIndex, id: &str, control: &ControlId) -> (r: Result<usize, FactError>)
    ensures
        fact_pos(old(index).facts@, id@) < 0 ==> (r matches Err(FactError::NotFound(x)) && x@ == id@)
            && *final(index) == *old(index),
        fact_pos(old(index).facts@, id@) >= 0 ==> (r matches Ok(i) && i as int == fact_pos(old(index).facts@, id@)
            && ({
            let e = old(index).facts@[i as int];
            let e2 = final(index).facts@[i as int];
            &&& final(index).facts@.len() == old(index).facts@.len()
            &&& forall|j: int| 0 <= j < old(index).facts@.len() && j != i ==> #[trigger] final(index).facts@[j] == old(index).facts@[j]
            &&& e2.related_controls@ == related(e.related_controls@, *control)
            &&& e2.id == e.id && e2.domain == e.domain && e2.title == e.title && e2.tags == e.tags
            &&& e2.external_key == e.external_key && e2.file == e.file
        })),
        final(index).display_name == old(index).display_name,
{
    let i = match find_fact(index, id) {
        None => {
            return Err(FactError::NotFound(owned(id)));
        },
        Some(i) => i,
    };
    proof {
        lemma_fact_pos(index.facts@, id@);
    }
    let mut e = index.facts.remove(i);
    relate(&mut e.related_controls, control);
    index.facts.insert(i, e);
    Ok(i)
}

/// Relates a fact file's frontmatter to a control, once.
pub fn link_frontmatter(fm: &mut FactFrontmatter, control: &ControlId)
    ensures
        final(fm).related_controls@ == related(old(fm).related_controls@, *control),
        final(fm).id == old(fm).id && final(fm).domain == old(fm).domain && final(fm).title == old(fm).title,
        final(fm).tags == old(fm).tags && final(fm).confidence == old(fm).confidence && final(fm).status == old(fm).status,
        final(fm).supersedes == old(fm).supersedes && final(fm).ingest == old(fm).ingest,
{
    relate(&mut fm.related_controls, control);
}

} // verus!
