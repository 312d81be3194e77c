//! The evidence register: files that show a control is met (screenshots,
//! configurations, policy documents, logs, records), each with its SHA-256
//! for traceability and the controls and facts it supports.
//!
//! The register is keyed by evidence id: entries are kept in increasing id
//! order, each id once. Evidence files are stored next to their control
//! under `evidence/<control>/`.

use std::cmp::Ordering;
use vstd::prelude::*;

use crate::digest::sha256_digest;
use crate::ids::{max_number, next_id, next_numbered_id};
use crate::model::{date_text, id_text, ControlId, Date};
use crate::paths::{at_most, file_name, file_name_of, safe_path_component, segment_of};
use crate::project::matrix::{has_key, lemma_has_key, Matrix};
use crate::sorted::{lemma_lex_lt_asym, lemma_lex_lt_trans, strictly_sorted};
use crate::system::fact::{has_control, related, relate};
use crate::text::{
    append_dec, append_joined, append_str, chars_of, contains_seq, dec, hex_of, join, lemma_contains_halves,
    lemma_contains_trans, lemma_lex_cmp_equal, ix, lemma_lex_cmp_flip, lex_compare, lex_lt, or_dash, owned, str_eq,
    string_of, texts,
};
use vstd::string::StringSliceAdditionalSpecFns;

verus! {

/// Kinds of evidence.
#[derive(Debug, Clone, Copy, PartialEq, Eq, Structural)]
pub enum EvidenceType {
    Screenshot,
    Config,
    PolicyDoc,
    Log,
    Record,
}

/// The persisted name of an evidence type.
pub open spec fn evidence_type_text(t: EvidenceType) -> Seq<char> {
    match t {
        EvidenceType::Screenshot => "screenshot"@,
        EvidenceType::Config => "config"@,
        EvidenceType::PolicyDoc => "policy-doc"@,
        EvidenceType::Log => "log"@,
        EvidenceType::Record => "record"@,
    }
}

/// Reading an evidence type name.
pub open spec fn evidence_type_from_text(s: Seq<char>) -> Option<EvidenceType> {
    if s == "screenshot"@ {
        Some(EvidenceType::Screenshot)
    } else if s == "config"@ {
        Some(EvidenceType::Config)
    } else if s == "policy-doc"@ {
        Some(EvidenceType::PolicyDoc)
    } else if s == "log"@ {
        Some(EvidenceType::Log)
    } else if s == "record"@ {
        Some(EvidenceType::Record)
    } else {
        None
    }
}

/// Errors of the evidence register.
#[derive(Debug, Clone)]
pub enum EvidenceError {
    /// A type other than screenshot/config/policy-doc/log/record.
    UnknownType(String),
    /// The control has no row in the project matrix.
    NotInMatrix(ControlId),
    /// The evidence path has no usable file name.
    NoFileName(String),
    /// No evidence with this id.
    NotFound(String),
}

/// Reading an evidence type's name gives back the type that was written, and
/// a name that is read is the name of the type it gives.
pub proof fn lemma_evidence_type_text_roundtrip(t: EvidenceType, s: Seq<char>)
    ensures
        evidence_type_from_text(evidence_type_text(t)) == Some(t),
        evidence_type_from_text(s) matches Some(u) ==> evidence_type_text(u) == s,
{
    reveal_strlit("screenshot");
    reveal_strlit("config");
    reveal_strlit("policy-doc");
    reveal_strlit("log");
    reveal_strlit("record");
    assert("screenshot"@[0] == 's' && "config"@[0] == 'c' && "policy-doc"@[0] == 'p' && "log"@[0] == 'l'
        && "record"@[0] == 'r');
}

impl EvidenceType {
    /// Reads an evidence type name.
    pub fn parse(s: &str) -> (r: Result<EvidenceType, EvidenceError>)
        ensures
            r matches Ok(t) ==> evidence_type_from_text(s@) == Some(t),
            r matches Err(e) ==> evidence_type_from_text(s@) is None && (e matches EvidenceError::UnknownType(x)
                && x@ == s@),
    {
        if str_eq(s, "screenshot") {
            Ok(EvidenceType::Screenshot)
        } else if str_eq(s, "config") {
            Ok(EvidenceType::Config)
        } else if str_eq(s, "policy-doc") {
            Ok(EvidenceType::PolicyDoc)
        } else if str_eq(s, "log") {
            Ok(EvidenceType::Log)
        } else if str_eq(s, "record") {
            Ok(EvidenceType::Record)
        } else {
            Err(EvidenceError::UnknownType(owned(s)))
        }
    }

    pub fn as_str(&self) -> (s: &'static str)
        ensures
            s@ == evidence_type_text(*self),
    {
        match self {
            EvidenceType::Screenshot => "screenshot",
            EvidenceType::Config => "config",
            EvidenceType::PolicyDoc => "policy-doc",
            EvidenceType::Log => "log",
            EvidenceType::Record => "record",
        }
    }
}

/// One piece of evidence.
#[derive(Debug, Clone)]
pub struct Evidence {
    pub id: String,
    /// Path of the stored copy, relative to the project.
    pub file: String,
    pub sha256: String,
    pub kind: EvidenceType,
    pub description: String,
    pub collected_at: Date,
    pub collector: String,
    pub linked_controls: Vec<ControlId>,
    pub linked_facts: Vec<String>,
}

/// The evidence of a project, by id.
#[derive(Debug, Clone)]
pub struct EvidenceIndex {
    /// Entries in increasing id order, each id once.
    pub evidence: Vec<Evidence>,
}

/// The ids of the entries, in order.
pub open spec fn evidence_ids(es: Seq<Evidence>) -> Seq<Seq<char>> {
    Seq::new(es.len(), |i: int| es[i].id@)
}

/// The prefix of evidence ids.
pub open spec fn evidence_prefix() -> Seq<char> {
    "EV-"@
}

impl EvidenceIndex {
    /// Ids in increasing order, each once.
    pub open spec fn wf(&self) -> bool {
        strictly_sorted(evidence_ids(self.evidence@))
    }

    /// An empty register.
    pub fn new() -> (r: EvidenceIndex)
        ensures
            r.evidence@.len() == 0,
            r.wf(),
    {
        EvidenceIndex { evidence: Vec::new() }
    }
}

/// The position of the entry with id `id`, or -1.
pub open spec fn evidence_pos(es: Seq<Evidence>, id: Seq<char>) -> int
    decreases es.len(),
{
    if es.len() == 0 {
        -1
    } else if es[0].id@ == id {
        0
    } else {
        let p = evidence_pos(es.drop_first(), id);
        if p < 0 {
            -1
        } else {
            p + 1
        }
    }
}

pub proof fn lemma_evidence_pos(es: Seq<Evidence>, id: Seq<char>)
    ensures
        -1 <= evidence_pos(es, id) < es.len(),
        evidence_pos(es, id) >= 0 ==> es[evidence_pos(es, id)].id@ == id,
        evidence_pos(es, id) >= 0 ==> forall|j: int| 0 <= j < evidence_pos(es, id) ==> (#[trigger] es[j]).id@ != id,
        evidence_pos(es, id) < 0 ==> forall|j: int| 0 <= j < es.len() ==> (#[trigger] es[j]).id@ != id,
    decreases es.len(),
{
    if es.len() > 0 && es[0].id@ != id {
        let t = es.drop_first();
        lemma_evidence_pos(t, id);
        assert forall|j: int| 1 <= j < es.len() implies es[j] == t[j - 1] by {}
    }
}

/// The position of the entry with this id.
pub fn get_position(index: &EvidenceIndex, id: &str) -> (r: Option<usize>)
    ensures
        r matches Some(i) ==> i as int == evidence_pos(index.evidence@, id@) && i < index.evidence@.len(),
        r is None ==> evidence_pos(index.evidence@, id@) < 0,
{
    proof {
        lemma_evidence_pos(index.evidence@, id@);
    }
    let mut i: usize = 0;
    while i < index.evidence.len()
        invariant
            i <= index.evidence@.len(),
            forall|j: int| 0 <= j < i ==> (#[trigger] index.evidence@[j]).id@ != id@,
            -1 <= evidence_pos(index.evidence@, id@) < index.evidence@.len(),
            evidence_pos(index.evidence@, id@) >= 0 ==> index.evidence@[evidence_pos(index.evidence@, id@)].id@ == id@,
            evidence_pos(index.evidence@, id@) >= 0 ==> forall|j: int| 0 <= j < evidence_pos(index.evidence@, id@) ==> (#[trigger] index.evidence@[j]).id@ != id@,
            evidence_pos(index.evidence@, id@) < 0 ==> forall|j: int| 0 <= j < index.evidence@.len() ==> (#[trigger] index.evidence@[j]).id@ != id@,
        decreases index.evidence.len() - i,
    {
        if str_eq(index.evidence[i].id.as_str(), id) {
            return Some(i);
        }
        i += 1;
    }
    None
}

/// Puts an entry into the register: it replaces the entry with the same id,
/// or is inserted at its place in id order.
pub fn insert_evidence(index: &mut EvidenceIndex, ev: Evidence)
    requires
        old(index).wf(),
    ensures
        final(index).wf(),
        evidence_pos(old(index).evidence@, ev.id@) >= 0 ==> final(index).evidence@ == old(index).evidence@.update(
            evidence_pos(old(index).evidence@, ev.id@),
            ev,
        ),
        evidence_pos(old(index).evidence@, ev.id@) < 0 ==> exists|p: int|
            0 <= p <= old(index).evidence@.len() && final(index).evidence@ == old(index).evidence@.insert(p, ev),
{
    let ghost ids = evidence_ids(index.evidence@);
    match get_position(index, ev.id.as_str()) {
        Some(i) => {
            proof {
                lemma_evidence_pos(index.evidence@, ev.id@);
            }
            index.evidence.remove(i);
            index.evidence.insert(i, ev);
            assert(evidence_ids(index.evidence@) =~= ids);
        },
        None => {
            proof {
                lemma_evidence_pos(index.evidence@, ev.id@);
            }
            let key = chars_of(ev.id.as_str());
            let mut p: usize = 0;
            while p < index.evidence.len()
                invariant
                    ids == evidence_ids(index.evidence@),
                    index.evidence@ == old(index).evidence@,
                    strictly_sorted(ids),
                    key@ == ev.id@,
                    p <= ids.len(),
                    forall|j: int| 0 <= j < p ==> lex_lt(#[trigger] ids[j], ev.id@),
                ensures
                    ids == evidence_ids(index.evidence@),
                    index.evidence@ == old(index).evidence@,
                    p <= ids.len(),
                    forall|j: int| 0 <= j < p ==> lex_lt(#[trigger] ids[j], ev.id@),
                    p < ids.len() ==> !lex_lt(ids[ix(p)], ev.id@),
                decreases index.evidence.len() - p,
            {
                let w = chars_of(index.evidence[p].id.as_str());
                let o = lex_compare(&w, &key);
                assert(ids[ix(p)] == index.evidence@[ix(p)].id@);
                let less = match o {
                    Ordering::Less => true,
                    _ => false,
                };
                if !less {
                    break;
                }
                p += 1;
            }
            let ghost pos = ix(p);
            proof {
                if pos < ids.len() {
                    lemma_lex_cmp_equal(ids[pos], ev.id@);
                    assert(ids[pos] != ev.id@);
                    lemma_lex_cmp_flip(ids[pos], ev.id@);
                    assert(lex_lt(ev.id@, ids[pos]));
                }
            }
            index.evidence.insert(p, ev);
            proof {
                let nt = evidence_ids(index.evidence@);
                assert(nt =~= ids.insert(pos, ev.id@));
                assert forall|i: int, j: int| 0 <= i < j < nt.len() implies lex_lt(#[trigger] nt[i], #[trigger] nt[j]) by {
                    if j < pos {
                        assert(nt[i] == ids[i] && nt[j] == ids[j]);
                    } else if j == pos {
                        assert(nt[i] == ids[i] && nt[j] == ev.id@);
                    } else if i == pos {
                        assert(nt[i] == ev.id@ && nt[j] == ids[j - 1]);
                        if j - 1 > pos {
                            lemma_lex_lt_trans(ev.id@, ids[pos], ids[j - 1]);
                        }
                    } else if i < pos {
                        assert(nt[i] == ids[i] && nt[j] == ids[j - 1]);
                    } else {
                        assert(nt[i] == ids[i - 1] && nt[j] == ids[j - 1]);
                    }
                }
            }
        },
    }
}

fn ids_of(es: &Vec<Evidence>) -> (r: Vec<String>)
    ensures
        texts(r@) == evidence_ids(es@),
{
    let mut r: Vec<String> = Vec::new();
    let mut i: usize = 0;
    while i < es.len()
        invariant
            i <= es@.len(),
            r@.len() == i,
            forall|j: int| 0 <= j < i ==> #[trigger] r@[j]@ == es@[j].id@,
        decreases es.len() - i,
    {
        r.push(es[i].id.clone());
        i += 1;
    }
    assert(texts(r@) =~= evidence_ids(es@));
    r
}

/// The id after the largest `EV-` number in the register.
pub fn next_evidence_id(index: &EvidenceIndex) -> (r: String)
    requires
        max_number(evidence_ids(index.evidence@), evidence_prefix()) < u32::MAX,
    ensures
        r@ == next_id(evidence_ids(index.evidence@), evidence_prefix()),
{
    let ids = ids_of(&index.evidence);
    next_numbered_id(&ids, "EV-")
}

/// Where a new piece of evidence is stored:
/// `evidence/<control segment>/<id>-<file segment>`.
pub open spec fn evidence_path(control_id: Seq<char>, id: Seq<char>, name: Seq<char>) -> Seq<char> {
    "evidence/"@ + segment_of(control_id) + "/"@ + id + "-"@ + segment_of(name)
}

/// A registered piece of evidence and where its copy goes.
#[derive(Debug, Clone)]
pub struct NewEvidence {
    pub id: String,
    /// Path of the copy relative to the project.
    pub relative_path: String,
}

/// The entry a new piece of evidence gets.
pub open spec fn new_entry(e: Evidence, id: Seq<char>, path: Seq<char>, digest: Seq<char>, kind: EvidenceType, description: Option<String>, control: ControlId, today: Date) -> bool {
    &&& e.id@ == id
    &&& e.file@ == path
    &&& e.sha256@ == digest
    &&& e.kind == kind
    &&& e.description@ == (match description { Some(d) => d@, None => Seq::empty() })
    &&& e.collected_at == today
    &&& e.collector@ == "agent"@
    &&& e.linked_controls@ == seq![control]
    &&& e.linked_facts@.len() == 0
}

/// Registers a file as evidence for a control: the next id, the digest of
/// its bytes, the type named by `kind`, a copy path derived from the
/// control and file names, collected today by the agent.
pub fn add(index: &mut EvidenceIndex, matrix: &Matrix, control: &ControlId, kind: &str, description: Option<String>, file_path: &str, bytes: &[u8], today: Date) -> (r: Result<NewEvidence, EvidenceError>)
    requires
        old(index).wf(),
        max_number(evidence_ids(old(index).evidence@), evidence_prefix()) < u32::MAX,
    ensures
        final(index).wf(),
        !has_key(matrix.keys(), control@) ==> (r matches Err(EvidenceError::NotInMatrix(c)) && c@ == control@),
        has_key(matrix.keys(), control@) && evidence_type_from_text(kind@) is None ==> (r matches Err(
            EvidenceError::UnknownType(k),
        ) && k@ == kind@),
        has_key(matrix.keys(), control@) && evidence_type_from_text(kind@) is Some && file_name_of(file_path@) is None
            ==> (r matches Err(EvidenceError::NoFileName(p)) && p@ == file_path@),
        r is Err ==> *final(index) == *old(index),
        r is Ok <==> has_key(matrix.keys(), control@) && evidence_type_from_text(kind@) is Some && file_name_of(
            file_path@,
        ) is Some,
        r matches Ok(n) ==> {
            let id = next_id(evidence_ids(old(index).evidence@), evidence_prefix());
            let path = evidence_path(control.control_id@, id, file_name_of(file_path@).unwrap());
            let p = evidence_pos(final(index).evidence@, id);
            &&& n.id@ == id
            &&& n.relative_path@ == path
            &&& !evidence_ids(old(index).evidence@).contains(id)
            &&& p >= 0
            &&& new_entry(final(index).evidence@[p], id, path, hex_of(sha256_digest(bytes@)), evidence_type_from_text(kind@).unwrap(), description, *control, today)
            &&& final(index).evidence@ == old(index).evidence@.insert(p, final(index).evidence@[p])
        },
{
    if !matrix.contains(control) {
        proof {
            lemma_has_key(matrix.keys(), control@);
        }
        return Err(EvidenceError::NotInMatrix(control.duplicate()));
    }
    proof {
        lemma_has_key(matrix.keys(), control@);
    }
    let id = next_evidence_id(index);
    let digest = crate::digest::sha256_hex(bytes);
    let k = match EvidenceType::parse(kind) {
        Ok(k) => k,
        Err(e) => {
            return Err(e);
        },
    };
    let name = match file_name(file_path) {
        Some(n) => n,
        None => {
            return Err(EvidenceError::NoFileName(owned(file_path)));
        },
    };
    let dir = safe_path_component(control.control_id.as_str());
    let seg = safe_path_component(name.as_str());
    let mut v = chars_of("evidence/");
    append_str(&mut v, dir.as_str());
    append_str(&mut v, "/");
    append_str(&mut v, id.as_str());
    append_str(&mut v, "-");
    append_str(&mut v, seg.as_str());
    let rel = string_of(&v);
    let mut controls: Vec<ControlId> = Vec::new();
    controls.push(control.duplicate());
    let desc = match description {
        Some(d) => d,
        None => String::new(),
    };
    let ev = Evidence {
        id: id.clone(),
        file: rel.clone(),
        sha256: digest,
        kind: k,
        description: desc,
        collected_at: today,
        collector: owned("agent"),
        linked_controls: controls,
        linked_facts: Vec::new(),
    };
    let ghost evc = ev;
    proof {
        crate::ids::lemma_next_id_is_fresh(evidence_ids(old(index).evidence@), evidence_prefix());
        lemma_evidence_pos(old(index).evidence@, id@);
        if evidence_pos(old(index).evidence@, id@) >= 0 {
            let q = evidence_pos(old(index).evidence@, id@);
            assert(evidence_ids(old(index).evidence@)[q] == id@);
        }
    }
    insert_evidence(index, ev);
    proof {
        let es = index.evidence@;
        lemma_evidence_pos(es, id@);
        let q = choose|q: int| 0 <= q <= old(index).evidence@.len() && es == old(index).evidence@.insert(q, evc);
        assert(es[q] == evc);
        let p = evidence_pos(es, id@);
        assert(p >= 0);
        assert(es[p].id@ == id@);
        assert(strictly_sorted(evidence_ids(es)));
        if es[p] != evc {
            let q = choose|q: int| 0 <= q < es.len() && es[q] == evc;
            assert(q != p);
            assert(evidence_ids(es)[p] == evidence_ids(es)[q]);
            if p < q {
                assert(lex_lt(evidence_ids(es)[p], evidence_ids(es)[q]));
            } else {
                assert(lex_lt(evidence_ids(es)[q], evidence_ids(es)[p]));
            }
            lemma_lex_lt_asym(id@, id@);
        }
        assert(es[p] == evc);
        if p != q {
            assert(evidence_ids(es)[p] == evidence_ids(es)[q]);
            if p < q {
                assert(lex_lt(evidence_ids(es)[p], evidence_ids(es)[q]));
            } else {
                assert(lex_lt(evidence_ids(es)[q], evidence_ids(es)[p]));
            }
            lemma_lex_lt_asym(id@, id@);
        }
    }
    Ok(NewEvidence { id, relative_path: rel })
}

/// Links a piece of evidence to one more control, once; the evidence can
/// support several controls.
pub fn link_control(index: &mut EvidenceIndex, id: &str, control: &ControlId) -> (r: Result<(), EvidenceError>)
    ensures
        evidence_pos(old(index).evidence@, id@) < 0 ==> (r matches Err(EvidenceError::NotFound(x)) && x@ == id@)
            && *final(index) == *old(index),
        evidence_pos(old(index).evidence@, id@) >= 0 ==> r is Ok && ({
            let i = evidence_pos(old(index).evidence@, id@);
            let e = old(index).evidence@[i];
            let e2 = final(index).evidence@[i];
            &&& final(index).evidence@.len() == old(index).evidence@.len()
            &&& forall|j: int| 0 <= j < old(index).evidence@.len() && j != i ==> #[trigger] final(index).evidence@[j] == old(index).evidence@[j]
            &&& e2.linked_controls@ == related(e.linked_controls@, *control)
            &&& e2.id == e.id && e2.file == e.file && e2.sha256 == e.sha256 && e2.kind == e.kind
            &&& e2.description == e.description && e2.collected_at == e.collected_at && e2.collector == e.collector
            &&& e2.linked_facts == e.linked_facts
        }),
        old(index).wf() ==> final(index).wf(),
{
    let i = match get_position(index, id) {
        None => {
            return Err(EvidenceError::NotFound(owned(id)));
        },
        Some(i) => i,
    };
    let ghost before = index.evidence@;
    let mut e = index.evidence.remove(i);
    relate(&mut e.linked_controls, control);
    index.evidence.insert(i, e);
    assert(evidence_ids(index.evidence@) =~= evidence_ids(before));
    Ok(())
}

/// One summary line of an evidence listing.
pub open spec fn summary_line(e: Evidence) -> Seq<char> {
    e.id@ + "  ["@ + evidence_type_text(e.kind) + "]  "@ + e.file@ + "  "@ + or_dash(e.description@, "-"@) + "\n"@
}

/// Summary lines of the entries for which `keep` holds, in register order.
pub open spec fn summaries(es: Seq<Evidence>, only: Option<(Seq<char>, Seq<char>)>) -> Seq<char>
    decreases es.len(),
{
    if es.len() == 0 {
        Seq::empty()
    } else {
        summaries(es.drop_last(), only) + if kept(es.last(), only) {
            summary_line(es.last())
        } else {
            Seq::empty()
        }
    }
}

/// Whether an entry is listed: all are without a control, else those linked to it.
pub open spec fn kept(e: Evidence, only: Option<(Seq<char>, Seq<char>)>) -> bool {
    match only {
        Some(c) => has_control(e.linked_controls@, c),
        None => true,
    }
}

/// How many entries are listed.
pub open spec fn kept_count(es: Seq<Evidence>, only: Option<(Seq<char>, Seq<char>)>) -> nat
    decreases es.len(),
{
    if es.len() == 0 {
        0
    } else {
        kept_count(es.drop_last(), only) + if kept(es.last(), only) {
            1nat
        } else {
            0nat
        }
    }
}

/// The text of `evidence list`.
pub open spec fn list_text(es: Seq<Evidence>) -> Seq<char> {
    summaries(es, None) + "\n"@ + dec(es.len()) + " evidence records\n"@
}

/// The text of `evidence find`.
pub open spec fn find_text(es: Seq<Evidence>, c: (Seq<char>, Seq<char>)) -> Seq<char> {
    summaries(es, Some(c)) + ("\n"@ + dec(kept_count(es, Some(c))) + " evidence records related to "@ + id_text(c)
        + "\n"@)
}

/// The entries that are linked to control `c`.
pub open spec fn linked_to(es: Seq<Evidence>, c: (Seq<char>, Seq<char>)) -> Seq<Evidence> {
    es.filter(|e: Evidence| has_control(e.linked_controls@, c))
}

proof fn lemma_kept_count_is_linked(es: Seq<Evidence>, c: (Seq<char>, Seq<char>))
    ensures
        kept_count(es, Some(c)) == linked_to(es, c).len(),
    decreases es.len(),
{
    reveal(Seq::filter);
    if es.len() > 0 {
        lemma_kept_count_is_linked(es.drop_last(), c);
    }
}

/// The summary lines of the kept entries hold the line of each of them.
proof fn lemma_summaries_hold(es: Seq<Evidence>, only: Option<(Seq<char>, Seq<char>)>, i: int)
    requires
        0 <= i < es.len(),
        kept(es[i], only),
    ensures
        contains_seq(summaries(es, only), summary_line(es[i])),
    decreases es.len(),
{
    let init = es.drop_last();
    let prev = summaries(init, only);
    let tail = if kept(es.last(), only) { summary_line(es.last()) } else { Seq::<char>::empty() };
    lemma_contains_halves(prev, tail);
    if i < es.len() - 1 {
        assert(init[i] == es[i]);
        lemma_summaries_hold(init, only, i);
        lemma_contains_trans(summaries(es, only), prev, summary_line(es[i]));
    }
}

/// `evidence find` lists every record linked to the control and counts them
/// truly: the count it prints is the number of records linked to the
/// control.
#[verifier::spinoff_prover]
pub proof fn lemma_find_lists_and_counts_linked(es: Seq<Evidence>, c: (Seq<char>, Seq<char>), i: int)
    ensures
        contains_seq(
            find_text(es, c),
            "\n"@ + dec(linked_to(es, c).len()) + " evidence records related to "@ + id_text(c) + "\n"@,
        ),
        0 <= i < es.len() && has_control(es[i].linked_controls@, c) ==> contains_seq(find_text(es, c), summary_line(es[i])),
{
    lemma_kept_count_is_linked(es, c);
    let tail = "\n"@ + dec(kept_count(es, Some(c))) + " evidence records related to "@ + id_text(c) + "\n"@;
    lemma_contains_halves(summaries(es, Some(c)), tail);
    if 0 <= i < es.len() && has_control(es[i].linked_controls@, c) {
        lemma_summaries_hold(es, Some(c), i);
        lemma_contains_trans(find_text(es, c), summaries(es, Some(c)), summary_line(es[i]));
    }
}

fn push_summary(v: &mut Vec<char>, e: &Evidence)
    ensures
        final(v)@ == old(v)@ + summary_line(*e),
{
    let ghost start = v@;
    append_str(v, e.id.as_str());
    append_str(v, "  [");
    append_str(v, e.kind.as_str());
    append_str(v, "]  ");
    append_str(v, e.file.as_str());
    append_str(v, "  ");
    if e.description.as_str().is_empty() {
        append_str(v, "-");
    } else {
        append_str(v, e.description.as_str());
    }
    append_str(v, "\n");
    assert(v@ =~= start + summary_line(*e));
}

fn contains_id(cs: &Vec<ControlId>, id: &ControlId) -> (b: bool)
    ensures
        b == has_control(cs@, id@),
{
    let mut k: usize = 0;
    while k < cs.len()
        invariant
            k <= cs@.len(),
            forall|j: int| 0 <= j < k ==> (#[trigger] cs@[j])@ != id@,
        decreases cs.len() - k,
    {
        if cs[k].same(id) {
            return true;
        }
        k += 1;
    }
    false
}

fn push_summaries(v: &mut Vec<char>, es: &Vec<Evidence>, only: Option<&ControlId>) -> (n: usize)
    ensures
        final(v)@ == old(v)@ + summaries(es@, match only { Some(c) => Some(c@), None => None }),
        n == kept_count(es@, match only { Some(c) => Some(c@), None => None }),
{
    let ghost o = match only { Some(c) => Some(c@), None => None };
    let ghost start = v@;
    let mut n: usize = 0;
    let mut i: usize = 0;
    while i < es.len()
        invariant
            i <= es@.len(),
            o == match only { Some(c) => Some(c@), None => None::<(Seq<char>, Seq<char>)> },
            v@ == start + summaries(es@.take(i as int), o),
            n == kept_count(es@.take(i as int), o),
            n <= i,
        decreases es.len() - i,
    {
        assert(es@.take(i + 1).drop_last() == es@.take(i as int));
        assert(es@.take(i + 1).last() == es@[i as int]);
        let keep = match only {
            Some(c) => contains_id(&es[i].linked_controls, c),
            None => true,
        };
        if keep {
            push_summary(v, &es[i]);
            n += 1;
        }
        i += 1;
    }
    assert(es@.take(es@.len() as int) == es@);
    n
}

/// Lists all evidence.
pub fn list(index: &EvidenceIndex) -> (s: String)
    ensures
        s@ == list_text(index.evidence@),
{
    let mut v: Vec<char> = Vec::new();
    let n = push_summaries(&mut v, &index.evidence, None);
    proof {
        lemma_kept_all(index.evidence@);
    }
    append_str(&mut v, "\n");
    append_dec(&mut v, index.evidence.len());
    append_str(&mut v, " evidence records\n");
    string_of(&v)
}

proof fn lemma_kept_all(es: Seq<Evidence>)
    ensures
        kept_count(es, None) == es.len(),
    decreases es.len(),
{
    if es.len() > 0 {
        lemma_kept_all(es.drop_last());
    }
}

/// Lists the evidence linked to a control.
pub fn find(index: &EvidenceIndex, control: &ControlId) -> (s: String)
    ensures
        s@ == find_text(index.evidence@, control@),
{
    let mut v: Vec<char> = Vec::new();
    let n = push_summaries(&mut v, &index.evidence, Some(control));
    append_str(&mut v, "\n");
    append_dec(&mut v, n);
    append_str(&mut v, " evidence records related to ");
    let t = control.to_text();
    append_str(&mut v, t.as_str());
    append_str(&mut v, "\n");
    assert(v@ =~= find_text(index.evidence@, control@));
    string_of(&v)
}

/// `-` for an empty list, else its items joined by `, `.
pub open spec fn list_or_dash(items: Seq<Seq<char>>) -> Seq<char> {
    if items.len() == 0 {
        "-"@
    } else {
        join(items, ", "@)
    }
}

/// The texts of identifiers.
pub open spec fn id_texts(cs: Seq<ControlId>) -> Seq<Seq<char>> {
    Seq::new(cs.len(), |i: int| id_text(cs[i]@))
}

/// The text of `evidence show`.
pub open spec fn show_text(e: Evidence) -> Seq<char> {
    "id\t"@ + e.id@ + "\n"@ + "type\t"@ + evidence_type_text(e.kind) + "\n"@ + "file\t"@ + e.file@ + "\n"@
        + "sha256\t"@ + e.sha256@ + "\n"@ + "collected_at\t"@ + date_text(e.collected_at) + "\n"@
        + "collector\t"@ + e.collector@ + "\n"@ + "description\t"@ + or_dash(e.description@, "-"@) + "\n"@
        + "controls\t"@ + list_or_dash(id_texts(e.linked_controls@)) + "\n"@ + "facts\t"@ + list_or_dash(
        texts(e.linked_facts@),
    ) + "\n"@
}

fn push_list_or_dash(v: &mut Vec<char>, items: &Vec<String>)
    ensures
        final(v)@ == old(v)@ + list_or_dash(texts(items@)),
{
    if items.len() == 0 {
        append_str(v, "-");
    } else {
        append_joined(v, items, ", ");
    }
}

fn control_texts(cs: &Vec<ControlId>) -> (r: Vec<String>)
    ensures
        texts(r@) == id_texts(cs@),
{
    let mut r: Vec<String> = Vec::new();
    let mut i: usize = 0;
    while i < cs.len()
        invariant
            i <= cs@.len(),
            r@.len() == i,
            forall|j: int| 0 <= j < i ==> #[trigger] r@[j]@ == id_text(cs@[j]@),
        decreases cs.len() - i,
    {
        r.push(cs[i].to_text());
        i += 1;
    }
    assert(texts(r@) =~= id_texts(cs@));
    r
}

/// Shows one piece of evidence.
pub fn show(index: &EvidenceIndex, id: &str) -> (r: Result<String, EvidenceError>)
    ensures
        evidence_pos(index.evidence@, id@) < 0 ==> (r matches Err(EvidenceError::NotFound(x)) && x@ == id@),
        evidence_pos(index.evidence@, id@) >= 0 ==> (r matches Ok(s) && s@ == show_text(
            index.evidence@[evidence_pos(index.evidence@, id@)],
        )),
{
    let i = match get_position(index, id) {
        None => {
            return Err(EvidenceError::NotFound(owned(id)));
        },
        Some(i) => i,
    };
    let e = &index.evidence[i];
    let mut v: Vec<char> = Vec::new();
    append_str(&mut v, "id\t");
    append_str(&mut v, e.id.as_str());
    append_str(&mut v, "\n");
    append_str(&mut v, "type\t");
    append_str(&mut v, e.kind.as_str());
    append_str(&mut v, "\n");
    append_str(&mut v, "file\t");
    append_str(&mut v, e.file.as_str());
    append_str(&mut v, "\n");
    append_str(&mut v, "sha256\t");
    append_str(&mut v, e.sha256.as_str());
    append_str(&mut v, "\n");
    append_str(&mut v, "collected_at\t");
    let d = e.collected_at.to_text();
    append_str(&mut v, d.as_str());
    append_str(&mut v, "\n");
    append_str(&mut v, "collector\t");
    append_str(&mut v, e.collector.as_str());
    append_str(&mut v, "\n");
    append_str(&mut v, "description\t");
    if e.description.as_str().is_empty() {
        append_str(&mut v, "-");
    } else {
        append_str(&mut v, e.description.as_str());
    }
    append_str(&mut v, "\n");
    append_str(&mut v, "controls\t");
    let cs = control_texts(&e.linked_controls);
    push_list_or_dash(&mut v, &cs);
    append_str(&mut v, "\n");
    append_str(&mut v, "facts\t");
    push_list_or_dash(&mut v, &e.linked_facts);
    append_str(&mut v, "\n");
    assert(v@ =~= show_text(*e));
    Ok(string_of(&v))
}

} // verus!
