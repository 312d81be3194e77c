//! Applying ingest records to their targets: control bodies, system and
//! project facts (upserted by external key) and matrix assessments.

use vstd::prelude::*;

use crate::ids::{max_number, next_id};
use crate::compliance::control::ControlFrontmatter;
use crate::ingest::{
    control_content_fault, defines_control, ControlContent, MatrixAssessmentContent, MatrixTarget, ProjectFactContent,
    SystemFactContent,
};
use crate::paths::{is_safe_relative, safe_path_component, segment_of};
use crate::project::matrix::{key_pos as row_pos, lemma_key_pos as lemma_row_pos, only_row_changed, row_keys, Matrix, MatrixError};
use crate::model::{
    clone_ids, clone_opt_id, fact_kind_text, ControlId, Date, Domain, Framework, IngestConfidence, IngestMetadata,
    ProjectFactKind,
};
use crate::project::fact::{
    next_id_of, project_fact_ids, project_fact_prefix, ProjectFactFrontmatter, ProjectFactIndex,
    ProjectFactIndexEntry,
};
use crate::system::fact::{
    fact_body, fact_ids, fact_path, fact_prefix, system_fact_path, lemma_system_fact_path_is_safe, make_fact_body, make_fact_path, next_fact_id,
    Confidence, FactFrontmatter, FactIndex, FactIndexEntry, FactSource, FactSourceType, FactStatus,
};
use crate::text::{
    append_str, chars_of, clone_strings, contains_chars, contains_seq, lemma_contains_halves,
    lemma_contains_trans, owned, str_eq, string_of, texts, trim, trim_str,
};

verus! {

/// ASCII upper-case letters become lower-case; other characters stay.
pub open spec fn lower_char(c: char) -> char {
    if 'A' <= c && c <= 'Z' {
        ((c as u32) + 32) as char
    } else {
        c
    }
}

/// `str::to_ascii_lowercase`.
pub open spec fn ascii_lower(s: Seq<char>) -> Seq<char> {
    Seq::new(s.len(), |i: int| lower_char(s[i]))
}

fn lower(c: char) -> (r: char)
    ensures
        r == lower_char(c),
{
    if 'A' <= c && c <= 'Z' {
        ((c as u8) + 32) as char
    } else {
        c
    }
}

/// The ASCII lower-case form of a text.
pub fn to_ascii_lowercase(s: &str) -> (r: Vec<char>)
    ensures
        r@ == ascii_lower(s@),
{
    let v = chars_of(s);
    let mut r: Vec<char> = Vec::new();
    let mut i: usize = 0;
    while i < v.len()
        invariant
            i <= v@.len(),
            v@ == s@,
            r@.len() == i,
            forall|j: int| 0 <= j < i ==> #[trigger] r@[j] == lower_char(v@[j]),
        decreases v.len() - i,
    {
        r.push(lower(v[i]));
        i += 1;
    }
    assert(r@ =~= ascii_lower(s@));
    r
}

/// The source type of a fact imported from a citation of kind `kind`:
/// interviews, scans (OCR too) and user statements are told apart from
/// documents by words in the kind, case-insensitively for ASCII.
pub open spec fn source_kind_of(kind: Seq<char>) -> FactSourceType {
    let k = ascii_lower(kind);
    if contains_seq(k, "interview"@) || contains_seq(k, "访谈"@) {
        FactSourceType::Interview
    } else if contains_seq(k, "scan"@) || contains_seq(k, "扫描"@) || contains_seq(k, "ocr"@) {
        FactSourceType::Scan
    } else if k == "user"@ || contains_seq(k, "用户"@) {
        FactSourceType::User
    } else {
        FactSourceType::Doc
    }
}

/// The fact source type of a citation kind.
pub fn fact_source_type(kind: &str) -> (t: FactSourceType)
    ensures
        t == source_kind_of(kind@),
{
    let k = to_ascii_lowercase(kind);
    if contains_chars(&k, &chars_of("interview")) || contains_chars(&k, &chars_of("访谈")) {
        FactSourceType::Interview
    } else if contains_chars(&k, &chars_of("scan")) || contains_chars(&k, &chars_of("扫描"))
        || contains_chars(&k, &chars_of("ocr")) {
        FactSourceType::Scan
    } else if crate::text::chars_eq(&k, &chars_of("user")) || contains_chars(&k, &chars_of("用户")) {
        FactSourceType::User
    } else {
        FactSourceType::Doc
    }
}

/// The fact confidence of an ingest confidence.
pub open spec fn confidence_of(c: IngestConfidence) -> Confidence {
    match c {
        IngestConfidence::High => Confidence::High,
        IngestConfidence::Medium => Confidence::Medium,
        IngestConfidence::Low => Confidence::Low,
    }
}

fn confidence(c: IngestConfidence) -> (r: Confidence)
    ensures
        r == confidence_of(c),
{
    match c {
        IngestConfidence::High => Confidence::High,
        IngestConfidence::Medium => Confidence::Medium,
        IngestConfidence::Low => Confidence::Low,
    }
}

/// Whether an optional key is exactly `key`.
pub open spec fn keyed(k: Option<String>, key: Seq<char>) -> bool {
    k matches Some(x) && x@ == key
}

fn is_keyed(k: &Option<String>, key: &str) -> (b: bool)
    ensures
        b == keyed(*k, key@),
{
    match k {
        Some(x) => str_eq(x.as_str(), key),
        None => false,
    }
}

/// An index entry of a system fact as plain values: id, domain, title, tags,
/// related controls, external key and file.
pub type FactView = (Seq<char>, Seq<char>, Seq<char>, Seq<Seq<char>>, Seq<ControlId>, Option<Seq<char>>, Seq<char>);

pub open spec fn fact_view(e: FactIndexEntry) -> FactView {
    (e.id@, e.domain@, e.title@, texts(e.tags@), e.related_controls@, match e.external_key {
        Some(k) => Some(k@),
        None => None,
    }, e.file@)
}

pub open spec fn fact_views(facts: Seq<FactIndexEntry>) -> Seq<FactView> {
    Seq::new(facts.len(), |i: int| fact_view(facts[i]))
}

/// The position of the first fact imported under `key`, or -1.
pub open spec fn key_pos(vs: Seq<FactView>, key: Seq<char>) -> int
    decreases vs.len(),
{
    if vs.len() == 0 {
        -1
    } else if vs[0].5 == Some(key) {
        0
    } else {
        let p = key_pos(vs.drop_first(), key);
        if p < 0 {
            -1
        } else {
            p + 1
        }
    }
}

pub proof fn lemma_key_pos(vs: Seq<FactView>, key: Seq<char>)
    ensures
        -1 <= key_pos(vs, key) < vs.len(),
        key_pos(vs, key) >= 0 ==> vs[key_pos(vs, key)].5 == Some(key),
        key_pos(vs, key) >= 0 ==> forall|j: int| 0 <= j < key_pos(vs, key) ==> (#[trigger] vs[j]).5 != Some(key),
        key_pos(vs, key) < 0 ==> forall|j: int| 0 <= j < vs.len() ==> (#[trigger] vs[j]).5 != Some(key),
    decreases vs.len(),
{
    if vs.len() > 0 && vs[0].5 != Some(key) {
        let t = vs.drop_first();
        lemma_key_pos(t, key);
        assert forall|j: int| 1 <= j < vs.len() implies vs[j] == t[j - 1] by {}
    }
}

/// The ids of fact views.
pub open spec fn view_ids(vs: Seq<FactView>) -> Seq<Seq<char>> {
    Seq::new(vs.len(), |i: int| vs[i].0)
}

/// The index entry an imported system fact gets, under id `id`.
pub open spec fn imported_fact(c: SystemFactContent, key: Seq<char>, id: Seq<char>) -> FactView {
    (id, c.domain@, c.title@, texts(c.tags@), c.related_controls@, Some(key), system_fact_path(c.domain@, id))
}

/// Upserting an imported system fact: the first entry with the same external
/// key is replaced (keeping its id), or a new entry with the next id is added.
pub open spec fn upsert_facts(vs: Seq<FactView>, c: SystemFactContent, key: Seq<char>) -> Seq<FactView> {
    let p = key_pos(vs, key);
    if p >= 0 {
        vs.update(p, imported_fact(c, key, vs[p].0))
    } else {
        vs.push(imported_fact(c, key, next_id(view_ids(vs), fact_prefix())))
    }
}

/// A fact file to write: frontmatter, body, path relative to its directory,
/// and the path it had before when it moves.
#[derive(Debug, Clone)]
pub struct FactWrite {
    pub frontmatter: FactFrontmatter,
    pub body: String,
    pub relative_path: String,
    pub previous_path: Option<String>,
}

/// `<reference>#<locator>`.
pub open spec fn citation_ref(m: IngestMetadata) -> Seq<char> {
    m.source.reference@ + "#"@ + m.source.locator@
}

/// The body of an imported fact: its title heading and the trimmed text.
pub open spec fn imported_body(title: Seq<char>, body: Seq<char>) -> Seq<char> {
    fact_body(title, trim(body))
}

/// The position of the fact imported under `key`.
pub fn position_by_key(facts: &Vec<FactIndexEntry>, key: &str) -> (r: Option<usize>)
    ensures
        r matches Some(i) ==> i as int == key_pos(fact_views(facts@), key@) && i < facts@.len(),
        r is None ==> key_pos(fact_views(facts@), key@) < 0,
{
    let ghost vs = fact_views(facts@);
    proof {
        lemma_key_pos(vs, key@);
    }
    let mut i: usize = 0;
    while i < facts.len()
        invariant
            i <= facts@.len(),
            vs == fact_views(facts@),
            forall|j: int| 0 <= j < i ==> (#[trigger] vs[j]).5 != Some(key@),
            -1 <= key_pos(vs, key@) < vs.len(),
            key_pos(vs, key@) >= 0 ==> vs[key_pos(vs, key@)].5 == Some(key@),
            key_pos(vs, key@) >= 0 ==> forall|j: int| 0 <= j < key_pos(vs, key@) ==> (#[trigger] vs[j]).5 != Some(key@),
            key_pos(vs, key@) < 0 ==> forall|j: int| 0 <= j < vs.len() ==> (#[trigger] vs[j]).5 != Some(key@),
        decreases facts.len() - i,
    {
        assert(vs[i as int] == fact_view(facts@[i as int]));
        if is_keyed(&facts[i].external_key, key) {
            return Some(i);
        }
        i += 1;
    }
    None
}

/// Writes an imported system fact into the index: the entry imported under
/// the same external key keeps its id and is replaced, otherwise the fact is
/// added with the next id. Returns the file to write.
pub fn upsert_system_fact(index: &mut FactIndex, content: &SystemFactContent, metadata: IngestMetadata, today: Date) -> (w: FactWrite)
    requires
        key_pos(fact_views(old(index).facts@), metadata.external_key@) < 0 ==> max_number(
            fact_ids(old(index).facts@),
            fact_prefix(),
        ) < u32::MAX,
    ensures
        fact_views(final(index).facts@) == upsert_facts(fact_views(old(index).facts@), *content, metadata.external_key@),
        final(index).display_name == old(index).display_name,
        ({
            let vs = fact_views(old(index).facts@);
            let p = key_pos(vs, metadata.external_key@);
            let v = upsert_facts(vs, *content, metadata.external_key@)[if p >= 0 { p } else { vs.len() as int }];
            &&& w.frontmatter.id@ == v.0
            &&& w.relative_path@ == v.6
            &&& w.previous_path == (if p >= 0 { Some(old(index).facts@[p].file) } else { None })
        }),
        key_pos(fact_views(old(index).facts@), metadata.external_key@) < 0 ==> is_safe_relative(w.relative_path@),
        w.frontmatter.domain@ == content.domain@,
        w.frontmatter.title@ == content.title@,
        w.frontmatter.tags@ == content.tags@,
        w.frontmatter.source.kind == source_kind_of(metadata.source.kind@),
        w.frontmatter.source.reference@ == citation_ref(metadata),
        w.frontmatter.source.collected_at == (match metadata.source.document_date {
            Some(d) => d,
            None => today,
        }),
        w.frontmatter.source.collector@ == "agent"@,
        w.frontmatter.confidence == confidence_of(metadata.confidence),
        w.frontmatter.related_controls@ == content.related_controls@,
        w.frontmatter.status == FactStatus::Current,
        w.frontmatter.supersedes@.len() == 0,
        w.frontmatter.ingest == Some(metadata),
        w.body@ == imported_body(content.title@, content.body@),
        key_pos(fact_views(old(index).facts@), metadata.external_key@) < 0 ==> !fact_ids(old(index).facts@).contains(
            w.frontmatter.id@,
        ),
{
    let ghost vs = fact_views(index.facts@);
    let pos = position_by_key(&index.facts, metadata.external_key.as_str());
    let id = match pos {
        Some(p) => index.facts[p].id.clone(),
        None => {
            proof {
                assert(fact_ids(index.facts@) =~= view_ids(vs));
                crate::ids::lemma_next_id_is_fresh(fact_ids(index.facts@), fact_prefix());
            }
            proof {
                reveal_strlit("SYS-F-");
                crate::ids::lemma_numbered_id_has_no_slash(
                    fact_prefix(),
                    max_number(fact_ids(index.facts@), fact_prefix()) + 1,
                );
                lemma_system_fact_path_is_safe(
                    content.domain@,
                    next_id(fact_ids(index.facts@), fact_prefix()),
                );
            }
            next_fact_id(index)
        },
    };
    proof {
        assert(fact_ids(index.facts@) =~= view_ids(vs));
    }
    let reference = {
        let mut v = chars_of(metadata.source.reference.as_str());
        append_str(&mut v, "#");
        append_str(&mut v, metadata.source.locator.as_str());
        string_of(&v)
    };
    let collected_at = match metadata.source.document_date {
        Some(d) => d,
        None => today,
    };
    let kind = fact_source_type(metadata.source.kind.as_str());
    let conf = confidence(metadata.confidence);
    let trimmed = trim_str(content.body.as_str());
    let body = make_fact_body(content.title.as_str(), trimmed.as_str());
    let segment = safe_path_component(content.domain.as_str());
    let rel = make_fact_path(segment.as_str(), id.as_str());
    let key = metadata.external_key.clone();
    let fm = FactFrontmatter {
        id: id.clone(),
        domain: content.domain.clone(),
        title: content.title.clone(),
        tags: clone_strings(&content.tags),
        source: FactSource { kind, reference, collected_at, collector: owned("agent") },
        confidence: conf,
        related_controls: clone_ids(&content.related_controls),
        status: FactStatus::Current,
        supersedes: Vec::new(),
        ingest: Some(metadata),
    };
    let entry = FactIndexEntry {
        id,
        domain: content.domain.clone(),
        title: content.title.clone(),
        tags: clone_strings(&content.tags),
        related_controls: clone_ids(&content.related_controls),
        external_key: Some(key),
        file: rel.clone(),
    };
    let previous = match pos {
        Some(p) => {
            let old_entry = index.facts.remove(p);
            index.facts.insert(p, entry);
            proof {
                assert(fact_views(index.facts@) =~= vs.update(p as int, fact_view(index.facts@[p as int])));
            }
            Some(old_entry.file)
        },
        None => {
            index.facts.push(entry);
            proof {
                assert(fact_views(index.facts@) =~= vs.push(fact_view(index.facts@.last())));
            }
            None
        },
    };
    FactWrite { frontmatter: fm, body, relative_path: rel, previous_path: previous }
}

/// Importing the same system fact twice leaves the index as importing it
/// once: the second import finds the entry of the first under its external
/// key and replaces it by the same entry.
pub proof fn lemma_upsert_facts_idempotent(vs: Seq<FactView>, c: SystemFactContent, key: Seq<char>)
    ensures
        upsert_facts(upsert_facts(vs, c, key), c, key) == upsert_facts(vs, c, key),
{
    lemma_key_pos(vs, key);
    let once = upsert_facts(vs, c, key);
    lemma_key_pos(once, key);
    let p = key_pos(vs, key);
    let q = if p >= 0 { p } else { vs.len() as int };
    assert(once[q].5 == Some(key));
    assert forall|j: int| 0 <= j < q implies (#[trigger] once[j]).5 != Some(key) by {
        assert(once[j] == vs[j]);
    }
    assert(key_pos(once, key) == q) by {
        if key_pos(once, key) < q {
            let r = key_pos(once, key);
            assert(once[r].5 == Some(key));
        }
    }
    assert(once.update(q, imported_fact(c, key, once[q].0)) =~= once);
}

/// At most one entry carries the external key `key`.
pub open spec fn key_unique(vs: Seq<FactView>, key: Seq<char>) -> bool {
    forall|i: int, j: int|
        0 <= i < vs.len() && 0 <= j < vs.len() && (#[trigger] vs[i]).5 == Some(key) && (#[trigger] vs[j]).5 == Some(key)
            ==> i == j
}

/// An import keeps a key on one entry only.
proof fn lemma_upsert_keeps_key_unique(vs: Seq<FactView>, c: SystemFactContent, key: Seq<char>)
    requires
        key_unique(vs, key),
    ensures
        key_unique(upsert_facts(vs, c, key), key),
        key_pos(upsert_facts(vs, c, key), key) == (if key_pos(vs, key) >= 0 { key_pos(vs, key) } else { vs.len() as int }),
{
    lemma_key_pos(vs, key);
    let once = upsert_facts(vs, c, key);
    lemma_key_pos(once, key);
    let p = key_pos(vs, key);
    let q = if p >= 0 { p } else { vs.len() as int };
    assert(once[q].5 == Some(key));
    assert forall|j: int| 0 <= j < once.len() && j != q implies (#[trigger] once[j]).5 != Some(key) by {
        assert(once[j] == vs[j]);
        if p >= 0 {
            assert(vs[p].5 == Some(key));
        }
    }
    assert(key_pos(once, key) == q) by {
        if key_pos(once, key) < q {
            let r = key_pos(once, key);
            assert(once[r].5 == Some(key));
        }
    }
}

/// Importing a changed fact under a key that was imported before updates
/// that entry in place: the index keeps its length, the entry keeps its id
/// and takes the new content, and the key still names one entry only.
pub proof fn lemma_reimport_updates_in_place(vs: Seq<FactView>, c1: SystemFactContent, c2: SystemFactContent, key: Seq<char>)
    requires
        key_unique(vs, key),
    ensures
        ({
            let once = upsert_facts(vs, c1, key);
            let twice = upsert_facts(once, c2, key);
            let q = key_pos(once, key);
            &&& 0 <= q < once.len()
            &&& twice.len() == once.len()
            &&& twice[q] == imported_fact(c2, key, once[q].0)
            &&& forall|j: int| 0 <= j < once.len() && j != q ==> #[trigger] twice[j] == once[j]
            &&& key_unique(twice, key)
        }),
{
    let once = upsert_facts(vs, c1, key);
    lemma_upsert_keeps_key_unique(vs, c1, key);
    lemma_upsert_keeps_key_unique(once, c2, key);
    lemma_key_pos(vs, key);
    lemma_key_pos(once, key);
}

/// After an import, exactly the entry at the key's position carries the key
/// among the entries up to it: the imported fact can be found by its key.
pub proof fn lemma_upsert_facts_findable(vs: Seq<FactView>, c: SystemFactContent, key: Seq<char>)
    ensures
        key_pos(upsert_facts(vs, c, key), key) >= 0,
        upsert_facts(vs, c, key)[key_pos(upsert_facts(vs, c, key), key)] == imported_fact(
            c,
            key,
            upsert_facts(vs, c, key)[key_pos(upsert_facts(vs, c, key), key)].0,
        ),
        upsert_facts(vs, c, key).len() == vs.len() + (if key_pos(vs, key) >= 0 { 0int } else { 1int }),
{
    lemma_key_pos(vs, key);
    let once = upsert_facts(vs, c, key);
    lemma_key_pos(once, key);
    let p = key_pos(vs, key);
    let q = if p >= 0 { p } else { vs.len() as int };
    assert(once[q].5 == Some(key));
    assert forall|j: int| 0 <= j < q implies (#[trigger] once[j]).5 != Some(key) by {
        assert(once[j] == vs[j]);
    }
    assert(key_pos(once, key) == q) by {
        if key_pos(once, key) < q {
            let r = key_pos(once, key);
            assert(once[r].5 == Some(key));
        }
    }
}

/// An index entry of a project fact as plain values: id, kind, title,
/// control, external key and file.
pub type ProjectFactView = (Seq<char>, ProjectFactKind, Seq<char>, Option<ControlId>, Option<Seq<char>>, Seq<char>);

pub open spec fn project_fact_view(e: ProjectFactIndexEntry) -> ProjectFactView {
    (e.id@, e.kind, e.title@, e.control, match e.external_key {
        Some(k) => Some(k@),
        None => None,
    }, e.file@)
}

pub open spec fn project_fact_views(facts: Seq<ProjectFactIndexEntry>) -> Seq<ProjectFactView> {
    Seq::new(facts.len(), |i: int| project_fact_view(facts[i]))
}

/// The position of the first project fact imported under `key`, or -1.
pub open spec fn project_key_pos(vs: Seq<ProjectFactView>, key: Seq<char>) -> int
    decreases vs.len(),
{
    if vs.len() == 0 {
        -1
    } else if vs[0].4 == Some(key) {
        0
    } else {
        let p = project_key_pos(vs.drop_first(), key);
        if p < 0 {
            -1
        } else {
            p + 1
        }
    }
}

pub proof fn lemma_project_key_pos(vs: Seq<ProjectFactView>, key: Seq<char>)
    ensures
        -1 <= project_key_pos(vs, key) < vs.len(),
        project_key_pos(vs, key) >= 0 ==> vs[project_key_pos(vs, key)].4 == Some(key),
        project_key_pos(vs, key) >= 0 ==> forall|j: int|
            0 <= j < project_key_pos(vs, key) ==> (#[trigger] vs[j]).4 != Some(key),
        project_key_pos(vs, key) < 0 ==> forall|j: int| 0 <= j < vs.len() ==> (#[trigger] vs[j]).4 != Some(key),
    decreases vs.len(),
{
    if vs.len() > 0 && vs[0].4 != Some(key) {
        let t = vs.drop_first();
        lemma_project_key_pos(t, key);
        assert forall|j: int| 1 <= j < vs.len() implies vs[j] == t[j - 1] by {}
    }
}

/// The ids of project fact views.
pub open spec fn project_view_ids(vs: Seq<ProjectFactView>) -> Seq<Seq<char>> {
    Seq::new(vs.len(), |i: int| vs[i].0)
}

/// The index entry an imported project fact gets, under id `id`.
pub open spec fn imported_project_fact(c: ProjectFactContent, key: Seq<char>, id: Seq<char>) -> ProjectFactView {
    (id, c.kind, c.title@, c.control, Some(key), fact_path(fact_kind_text(c.kind), id))
}

/// Upserting an imported project fact, as for system facts.
pub open spec fn upsert_project_facts(vs: Seq<ProjectFactView>, c: ProjectFactContent, key: Seq<char>) -> Seq<ProjectFactView> {
    let p = project_key_pos(vs, key);
    if p >= 0 {
        vs.update(p, imported_project_fact(c, key, vs[p].0))
    } else {
        vs.push(imported_project_fact(c, key, next_id(project_view_ids(vs), project_fact_prefix())))
    }
}

/// A project fact file to write.
#[derive(Debug, Clone)]
pub struct ProjectFactWrite {
    pub frontmatter: ProjectFactFrontmatter,
    pub body: String,
    pub relative_path: String,
    pub previous_path: Option<String>,
}

/// The position of the project fact imported under `key`.
pub fn project_position_by_key(facts: &Vec<ProjectFactIndexEntry>, key: &str) -> (r: Option<usize>)
    ensures
        r matches Some(i) ==> i as int == project_key_pos(project_fact_views(facts@), key@) && i < facts@.len(),
        r is None ==> project_key_pos(project_fact_views(facts@), key@) < 0,
{
    let ghost vs = project_fact_views(facts@);
    proof {
        lemma_project_key_pos(vs, key@);
    }
    let mut i: usize = 0;
    while i < facts.len()
        invariant
            i <= facts@.len(),
            vs == project_fact_views(facts@),
            forall|j: int| 0 <= j < i ==> (#[trigger] vs[j]).4 != Some(key@),
            -1 <= project_key_pos(vs, key@) < vs.len(),
            project_key_pos(vs, key@) >= 0 ==> vs[project_key_pos(vs, key@)].4 == Some(key@),
            project_key_pos(vs, key@) >= 0 ==> forall|j: int|
                0 <= j < project_key_pos(vs, key@) ==> (#[trigger] vs[j]).4 != Some(key@),
            project_key_pos(vs, key@) < 0 ==> forall|j: int| 0 <= j < vs.len() ==> (#[trigger] vs[j]).4 != Some(key@),
        decreases facts.len() - i,
    {
        assert(vs[i as int] == project_fact_view(facts@[i as int]));
        if is_keyed(&facts[i].external_key, key) {
            return Some(i);
        }
        i += 1;
    }
    None
}

/// Writes an imported project fact into the project index, as
/// `upsert_system_fact` does for system facts.
pub fn upsert_project_fact(index: &mut ProjectFactIndex, content: &ProjectFactContent, metadata: IngestMetadata, today: Date) -> (w: ProjectFactWrite)
    requires
        project_key_pos(project_fact_views(old(index).facts@), metadata.external_key@) < 0 ==> max_number(
            project_fact_ids(old(index).facts@),
            project_fact_prefix(),
        ) < u32::MAX,
    ensures
        project_fact_views(final(index).facts@) == upsert_project_facts(
            project_fact_views(old(index).facts@),
            *content,
            metadata.external_key@,
        ),
        ({
            let vs = project_fact_views(old(index).facts@);
            let p = project_key_pos(vs, metadata.external_key@);
            let v = upsert_project_facts(vs, *content, metadata.external_key@)[if p >= 0 { p } else { vs.len() as int }];
            &&& w.frontmatter.id@ == v.0
            &&& w.relative_path@ == v.5
            &&& w.previous_path == (if p >= 0 { Some(old(index).facts@[p].file) } else { None })
        }),
        w.frontmatter.kind == content.kind,
        w.frontmatter.title@ == content.title@,
        w.frontmatter.tags@ == content.tags@,
        w.frontmatter.control == content.control,
        w.frontmatter.created_at == (match metadata.source.document_date {
            Some(d) => d,
            None => today,
        }),
        w.frontmatter.ingest == Some(metadata),
        w.body@ == imported_body(content.title@, content.body@),
        project_key_pos(project_fact_views(old(index).facts@), metadata.external_key@) < 0
            ==> !project_fact_ids(old(index).facts@).contains(w.frontmatter.id@),
{
    let ghost vs = project_fact_views(index.facts@);
    let pos = project_position_by_key(&index.facts, metadata.external_key.as_str());
    proof {
        assert(project_fact_ids(index.facts@) =~= project_view_ids(vs));
        if project_key_pos(vs, metadata.external_key@) < 0 {
            crate::ids::lemma_next_id_is_fresh(project_fact_ids(index.facts@), project_fact_prefix());
        }
    }
    let id = match pos {
        Some(p) => index.facts[p].id.clone(),
        None => next_id_of(index),
    };
    let created_at = match metadata.source.document_date {
        Some(d) => d,
        None => today,
    };
    let trimmed = trim_str(content.body.as_str());
    let body = make_fact_body(content.title.as_str(), trimmed.as_str());
    let rel = make_fact_path(content.kind.as_str(), id.as_str());
    let key = metadata.external_key.clone();
    let fm = ProjectFactFrontmatter {
        id: id.clone(),
        kind: content.kind,
        title: content.title.clone(),
        tags: clone_strings(&content.tags),
        control: clone_opt_id(&content.control),
        created_at,
        ingest: Some(metadata),
    };
    let entry = ProjectFactIndexEntry {
        id,
        kind: content.kind,
        title: content.title.clone(),
        control: clone_opt_id(&content.control),
        external_key: Some(key),
        file: rel.clone(),
    };
    let previous = match pos {
        Some(p) => {
            let old_entry = index.facts.remove(p);
            index.facts.insert(p, entry);
            proof {
                assert(project_fact_views(index.facts@) =~= vs.update(p as int, project_fact_view(index.facts@[p as int])));
            }
            Some(old_entry.file)
        },
        None => {
            index.facts.push(entry);
            proof {
                assert(project_fact_views(index.facts@) =~= vs.push(project_fact_view(index.facts@.last())));
            }
            None
        },
    };
    ProjectFactWrite { frontmatter: fm, body, relative_path: rel, previous_path: previous }
}

/// Importing the same project fact twice leaves the index as importing it once.
pub proof fn lemma_upsert_project_facts_idempotent(vs: Seq<ProjectFactView>, c: ProjectFactContent, key: Seq<char>)
    ensures
        upsert_project_facts(upsert_project_facts(vs, c, key), c, key) == upsert_project_facts(vs, c, key),
{
    lemma_project_key_pos(vs, key);
    let once = upsert_project_facts(vs, c, key);
    lemma_project_key_pos(once, key);
    let p = project_key_pos(vs, key);
    let q = if p >= 0 { p } else { vs.len() as int };
    assert(once[q].4 == Some(key));
    assert forall|j: int| 0 <= j < q implies (#[trigger] once[j]).4 != Some(key) by {
        assert(once[j] == vs[j]);
    }
    assert(project_key_pos(once, key) == q) by {
        if project_key_pos(once, key) < q {
            let r = project_key_pos(once, key);
            assert(once[r].4 == Some(key));
        }
    }
    assert(once.update(q, imported_project_fact(c, key, once[q].0)) =~= once);
}

/// One body section of a control: `## heading` and the trimmed text, when given.
pub open spec fn section_text(heading: Seq<char>, s: Option<String>) -> Seq<char> {
    match s {
        Some(x) => "\n## "@ + heading + "\n\n"@ + trim(x@) + "\n"@,
        None => Seq::empty(),
    }
}

/// The body of an imported control: the title, then the sections that the
/// material provided; absent sections are left out rather than filled with
/// placeholders.
pub open spec fn control_body(title: Seq<char>, c: ControlContent) -> Seq<char> {
    "# "@ + title + "\n"@ + section_text("要求摘要"@, c.requirement_summary) + section_text(
        "实施指引"@,
        c.implementation_guidance,
    ) + section_text("常见缺陷"@, c.common_deficiencies)
}

/// The body of an imported control shows its title and every
/// section the record provides, trimmed, under its heading.
#[verifier::spinoff_prover]
pub proof fn lemma_control_body_shows_sections(title: Seq<char>, c: ControlContent)
    ensures
        contains_seq(control_body(title, c), "# "@ + title + "\n"@),
        c.requirement_summary matches Some(x) ==> contains_seq(
            control_body(title, c),
            "\n## "@ + "要求摘要"@ + "\n\n"@ + trim(x@) + "\n"@,
        ),
        c.implementation_guidance matches Some(x) ==> contains_seq(
            control_body(title, c),
            "\n## "@ + "实施指引"@ + "\n\n"@ + trim(x@) + "\n"@,
        ),
        c.common_deficiencies matches Some(x) ==> contains_seq(
            control_body(title, c),
            "\n## "@ + "常见缺陷"@ + "\n\n"@ + trim(x@) + "\n"@,
        ),
{
    let h = "# "@ + title + "\n"@;
    let s1 = section_text("要求摘要"@, c.requirement_summary);
    let s2 = section_text("实施指引"@, c.implementation_guidance);
    let s3 = section_text("常见缺陷"@, c.common_deficiencies);
    let b = control_body(title, c);
    lemma_contains_halves(h + s1 + s2, s3);
    lemma_contains_halves(h + s1, s2);
    lemma_contains_halves(h, s1);
    lemma_contains_trans(b, h + s1 + s2, h + s1);
    lemma_contains_trans(b, h + s1 + s2, s2);
    lemma_contains_trans(b, h + s1, s1);
    lemma_contains_trans(b, h + s1, h);
}

fn push_section(v: &mut Vec<char>, heading: &str, s: &Option<String>)
    ensures
        final(v)@ == old(v)@ + section_text(heading@, *s),
{
    match s {
        Some(x) => {
            let ghost start = v@;
            append_str(v, "\n## ");
            append_str(v, heading);
            append_str(v, "\n\n");
            let t = trim_str(x.as_str());
            append_str(v, t.as_str());
            append_str(v, "\n");
            assert(v@ =~= start + section_text(heading@, *s));
        },
        None => {},
    }
}

/// Applies imported control content to a control's frontmatter and returns
/// the new body: the completeness becomes the excerpt status, the review
/// date is today, the provenance is recorded, and the expected evidence is
/// replaced when given.
pub fn apply_control_content(fm: &mut ControlFrontmatter, content: &ControlContent, metadata: IngestMetadata, today: Date) -> (body: String)
    ensures
        final(fm).excerpt_status == content.completeness,
        final(fm).last_reviewed == Some(today),
        final(fm).ingest == Some(metadata),
        final(fm).expected_evidence@ == (match content.expected_evidence {
            Some(e) => e@,
            None => old(fm).expected_evidence@,
        }),
        final(fm).id == old(fm).id && final(fm).framework == old(fm).framework && final(fm).domain == old(fm).domain,
        final(fm).category == old(fm).category && final(fm).control_id == old(fm).control_id,
        final(fm).title == old(fm).title && final(fm).levels == old(fm).levels && final(fm).tags == old(fm).tags,
        final(fm).mappings == old(fm).mappings,
        body@ == control_body(old(fm).title@, *content),
{
    fm.excerpt_status = content.completeness;
    fm.last_reviewed = Some(today);
    fm.ingest = Some(metadata);
    match &content.expected_evidence {
        Some(e) => {
            fm.expected_evidence = clone_strings(e);
        },
        None => {},
    }
    let mut v: Vec<char> = Vec::new();
    append_str(&mut v, "# ");
    append_str(&mut v, fm.title.as_str());
    append_str(&mut v, "\n");
    let ghost head = v@;
    push_section(&mut v, "要求摘要", &content.requirement_summary);
    push_section(&mut v, "实施指引", &content.implementation_guidance);
    push_section(&mut v, "常见缺陷", &content.common_deficiencies);
    assert(v@ =~= control_body(old(fm).title@, *content));
    string_of(&v)
}

fn body_of(title: &str, content: &ControlContent) -> (s: String)
    ensures
        s@ == control_body(title@, *content),
{
    let mut v: Vec<char> = Vec::new();
    append_str(&mut v, "# ");
    append_str(&mut v, title);
    append_str(&mut v, "\n");
    push_section(&mut v, "要求摘要", &content.requirement_summary);
    push_section(&mut v, "实施指引", &content.implementation_guidance);
    push_section(&mut v, "常见缺陷", &content.common_deficiencies);
    string_of(&v)
}

fn copy_levels(levels: &Vec<u8>) -> (r: Vec<u8>)
    ensures
        r@ == levels@,
{
    let mut r: Vec<u8> = Vec::new();
    let mut i: usize = 0;
    while i < levels.len()
        invariant
            i <= levels@.len(),
            r@ == levels@.take(i as int),
        decreases levels.len() - i,
    {
        r.push(levels[i]);
        assert(levels@.take(i + 1) == levels@.take(i as int).push(levels@[i as int]));
        i += 1;
    }
    assert(levels@.take(levels@.len() as int) == levels@);
    r
}

/// Where an import creates a control: `<domain>/<category>/<control>.md`,
/// each part turned into a storage segment.
pub open spec fn new_control_path(domain: Seq<char>, category: Seq<char>, control_id: Seq<char>) -> Seq<char> {
    segment_of(domain) + "/"@ + segment_of(category) + "/"@ + segment_of(control_id) + ".md"@
}

/// A control created by an import: its file, frontmatter and body.
#[derive(Debug, Clone)]
pub struct NewControl {
    /// Path relative to the framework directory.
    pub relative_path: String,
    pub frontmatter: ControlFrontmatter,
    pub body: String,
}

/// The control that a record creates for a control its framework's index
/// does not list yet: named as the record names it, with the record's
/// sections, completeness, evidence and provenance, reviewed today.
pub fn new_control(id: &ControlId, content: &ControlContent, metadata: IngestMetadata, today: Date) -> (c: NewControl)
    requires
        defines_control(*content),
        control_content_fault(*content) is None,
    ensures
        c.relative_path@ == new_control_path(
            content.domain.unwrap()@,
            content.category.unwrap()@,
            id.control_id@,
        ),
        c.frontmatter.id@ == id@,
        c.frontmatter.framework.0@ == id.framework.0@,
        c.frontmatter.domain@ == content.domain.unwrap()@,
        c.frontmatter.category@ == content.category.unwrap()@,
        c.frontmatter.control_id@ == id.control_id@,
        c.frontmatter.title@ == content.title.unwrap()@,
        c.frontmatter.levels@ == (match content.levels {
            Some(l) => l@,
            None => Seq::empty(),
        }),
        c.frontmatter.tags@.len() == 0,
        c.frontmatter.mappings@.len() == 0,
        c.frontmatter.expected_evidence@ == (match content.expected_evidence {
            Some(e) => e@,
            None => Seq::empty(),
        }),
        c.frontmatter.excerpt_status == content.completeness,
        c.frontmatter.last_reviewed == Some(today),
        c.frontmatter.ingest == Some(metadata),
        c.body@ == control_body(content.title.unwrap()@, *content),
{
    let title: &String = content.title.as_ref().unwrap();
    let domain: &String = content.domain.as_ref().unwrap();
    let category: &String = content.category.as_ref().unwrap();
    let d = safe_path_component(domain.as_str());
    let k = safe_path_component(category.as_str());
    let n = safe_path_component(id.control_id.as_str());
    let mut v = chars_of(d.as_str());
    append_str(&mut v, "/");
    append_str(&mut v, k.as_str());
    append_str(&mut v, "/");
    append_str(&mut v, n.as_str());
    append_str(&mut v, ".md");
    let levels = match &content.levels {
        Some(l) => copy_levels(l),
        None => Vec::new(),
    };
    let evidence = match &content.expected_evidence {
        Some(e) => clone_strings(e),
        None => Vec::new(),
    };
    let frontmatter = ControlFrontmatter {
        id: id.duplicate(),
        framework: Framework(id.framework.0.clone()),
        domain: Domain::from_text(domain.as_str()),
        category: category.clone(),
        control_id: id.control_id.clone(),
        title: title.clone(),
        levels,
        tags: Vec::new(),
        mappings: Vec::new(),
        expected_evidence: evidence,
        excerpt_status: content.completeness,
        last_reviewed: Some(today),
        ingest: Some(metadata),
    };
    NewControl { relative_path: string_of(&v), frontmatter, body: body_of(title.as_str(), content) }
}

/// A matrix entry after an imported assessment: the status, the notes that
/// were given, today's date and the provenance; references stay.
pub open spec fn assessed(e: crate::project::matrix::MatrixEntry, e2: crate::project::matrix::MatrixEntry, c: MatrixAssessmentContent, m: IngestMetadata, today: Date) -> bool {
    &&& e2.status == c.status
    &&& e2.gap == (match c.gap { Some(g) => g, None => e.gap })
    &&& e2.remediation == (match c.remediation { Some(x) => x, None => e.remediation })
    &&& e2.owner == (match c.owner { Some(o) => o, None => e.owner })
    &&& e2.last_updated == Some(today)
    &&& e2.ingest == Some(m)
    &&& e2.evidence == e.evidence && e2.facts == e.facts && e2.project_facts == e.project_facts
}

fn clone_opt(o: &Option<String>, fallback: String) -> (r: String)
    ensures
        r == (match *o { Some(x) => x, None => fallback }),
{
    match o {
        Some(x) => x.clone(),
        None => fallback,
    }
}

/// Applies an imported assessment to the matrix row of its control.
pub fn apply_matrix_assessment(matrix: &mut Matrix, target: &MatrixTarget, content: &MatrixAssessmentContent, metadata: IngestMetadata, today: Date) -> (r: Result<(), MatrixError>)
    ensures
        final(matrix).framework == old(matrix).framework,
        final(matrix).level == old(matrix).level,
        final(matrix).scope == old(matrix).scope,
        row_pos(old(matrix).keys(), target.control@) < 0 ==> (r matches Err(MatrixError::NotInMatrix(c)) && c@ == target.control@)
            && final(matrix).entries@ == old(matrix).entries@,
        row_pos(old(matrix).keys(), target.control@) >= 0 ==> r is Ok && ({
            let i = row_pos(old(matrix).keys(), target.control@);
            &&& only_row_changed(old(matrix).entries@, final(matrix).entries@, i)
            &&& assessed(old(matrix).entries@[i].1, final(matrix).entries@[i].1, *content, metadata, today)
        }),
        old(matrix).wf() ==> final(matrix).wf(),
{
    let i = match matrix.position(&target.control) {
        None => {
            return Err(MatrixError::NotInMatrix(target.control.duplicate()));
        },
        Some(i) => i,
    };
    let ghost before = matrix.entries@;
    let (k, mut e) = matrix.entries.remove(i);
    e.status = content.status;
    e.gap = clone_opt(&content.gap, e.gap);
    e.remediation = clone_opt(&content.remediation, e.remediation);
    e.owner = clone_opt(&content.owner, e.owner);
    e.last_updated = Some(today);
    e.ingest = Some(metadata);
    matrix.entries.insert(i, (k, e));
    proof {
        assert(matrix.entries@ == before.update(i as int, (k, e)));
        assert(row_keys(matrix.entries@) == row_keys(before));
    }
    Ok(())
}

} // verus!
