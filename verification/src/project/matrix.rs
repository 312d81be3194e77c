//! The control matrix: control -> status -> fact and evidence references -> owner.
//!
//! The matrix stores references by id only: controls live in the compliance
//! knowledge base, system facts in the shared system knowledge base, project
//! facts and evidence inside the project.
//!
//! Rows are kept in the natural order of their control identifiers, and no two
//! rows have identifiers that the order deems equal, so that the matrix reads
//! like a map keyed by control.

use std::cmp::Ordering;
use vstd::prelude::*;

use crate::model::{
    control_order, id_text, lemma_control_order_antisymmetric, lemma_control_order_equal_trans,
    lemma_control_order_reflexive,
    parse_id, status_from_text,
    status_text, ControlId, ControlIdFault, ControlStatus, Date, Framework, IngestMetadata,
    ModelError,
};
use crate::paths::at_most;
use crate::project::evidence::{evidence_pos, evidence_type_text, get_position, Evidence, EvidenceIndex};
use crate::project::fact::{project_fact_pos, ProjectFactIndex, ProjectFactIndexEntry};
use crate::system::fact::{fact_pos, FactIndex, FactIndexEntry};
use crate::text::{
    append_dec, append_str, blank, chars_of, contains_seq, contains_text, dec, has_text, is_blank, ix,
    lemma_contains_halves, lemma_contains_part, lemma_contains_trans, lemma_contains_within, or_dash, owned, string_of,
};

verus! {

/// The assessment of one control inside a project.
#[derive(Debug, Clone)]
pub struct MatrixEntry {
    pub status: ControlStatus,
    pub owner: String,
    pub evidence: Vec<String>,
    /// System facts (`SYS-F-…`) of the shared system knowledge base.
    pub facts: Vec<String>,
    /// Project facts (`PROJ-F-…`) of this project.
    pub project_facts: Vec<String>,
    pub gap: String,
    pub remediation: String,
    pub last_updated: Option<Date>,
    pub ingest: Option<IngestMetadata>,
}

impl MatrixEntry {
    /// A control that has not been assessed yet.
    pub fn empty() -> (e: Self)
        ensures
            e.status == ControlStatus::Unassessed,
            e.owner@ == Seq::<char>::empty(),
            e.evidence@.len() == 0,
            e.facts@.len() == 0,
            e.project_facts@.len() == 0,
            e.gap@ == Seq::<char>::empty(),
            e.remediation@ == Seq::<char>::empty(),
            e.last_updated is None,
            e.ingest is None,
    {
        MatrixEntry {
            status: ControlStatus::Unassessed,
            owner: String::new(),
            evidence: Vec::new(),
            facts: Vec::new(),
            project_facts: Vec::new(),
            gap: String::new(),
            remediation: String::new(),
            last_updated: None,
            ingest: None,
        }
    }
}

/// An entry of an older matrix format, which filled new matrices with `na`
/// and no gap at all; a real `na` always has its reason.
pub open spec fn legacy_na(e: MatrixEntry) -> bool {
    e.status == ControlStatus::Na && e.gap@.len() == 0
}

/// Reads a stored entry: a legacy `na` with no gap counts as not yet
/// assessed; every other entry is kept as it is.
pub fn read_entry(e: MatrixEntry) -> (r: MatrixEntry)
    ensures
        r.status == (if legacy_na(e) { ControlStatus::Unassessed } else { e.status }),
        r.owner == e.owner && r.evidence == e.evidence && r.facts == e.facts,
        r.project_facts == e.project_facts && r.gap == e.gap && r.remediation == e.remediation,
        r.last_updated == e.last_updated && r.ingest == e.ingest,
{
    let mut e = e;
    if e.status == ControlStatus::Na && chars_of(e.gap.as_str()).len() == 0 {
        e.status = ControlStatus::Unassessed;
    }
    e
}

/// The systems a project covers.
#[derive(Debug, Clone)]
pub struct Scope {
    pub systems: Vec<String>,
    pub boundary_ref: Option<String>,
}

/// The control matrix of a project.
#[derive(Debug, Clone)]
pub struct Matrix {
    pub framework: Framework,
    pub level: Option<u8>,
    pub scope: Scope,
    /// One row per control, in natural identifier order.
    pub entries: Vec<(ControlId, MatrixEntry)>,
}

/// The identifiers of a list of rows, in order.
pub open spec fn row_keys(rows: Seq<(ControlId, MatrixEntry)>) -> Seq<(Seq<char>, Seq<char>)> {
    Seq::new(rows.len(), |i: int| rows[i].0@)
}

/// Two identifiers that the identifier order deems equal name the same row.
pub open spec fn same_key(a: (Seq<char>, Seq<char>), b: (Seq<char>, Seq<char>)) -> bool {
    control_order(a, b) == Ordering::Equal
}

/// Keys in strictly increasing order, no two of them the same.
pub open spec fn keys_ordered(ks: Seq<(Seq<char>, Seq<char>)>) -> bool {
    &&& forall|i: int, j: int|
        0 <= i && j == i + 1 && j < ks.len() ==> control_order(#[trigger] ks[i], #[trigger] ks[j])
            == Ordering::Less
    &&& forall|i: int, j: int| 0 <= i < j < ks.len() ==> !same_key(#[trigger] ks[i], #[trigger] ks[j])
}

/// The position of the first key that is the same as `k`, or -1.
pub open spec fn key_pos(ks: Seq<(Seq<char>, Seq<char>)>, k: (Seq<char>, Seq<char>)) -> int
    decreases ks.len(),
{
    if ks.len() == 0 {
        -1
    } else if same_key(ks[0], k) {
        0
    } else {
        let p = key_pos(ks.drop_first(), k);
        if p < 0 {
            -1
        } else {
            p + 1
        }
    }
}

/// `key_pos` finds the first key that is the same as `k`, and only misses
/// when there is none.
pub proof fn lemma_key_pos(ks: Seq<(Seq<char>, Seq<char>)>, k: (Seq<char>, Seq<char>))
    ensures
        -1 <= key_pos(ks, k) < ks.len(),
        key_pos(ks, k) >= 0 ==> same_key(ks[key_pos(ks, k)], k),
        key_pos(ks, k) >= 0 ==> forall|j: int| 0 <= j < key_pos(ks, k) ==> !same_key(#[trigger] ks[j], k),
        key_pos(ks, k) < 0 ==> forall|j: int| 0 <= j < ks.len() ==> !same_key(#[trigger] ks[j], k),
    decreases ks.len(),
{
    if ks.len() > 0 && !same_key(ks[0], k) {
        let t = ks.drop_first();
        lemma_key_pos(t, k);
        assert forall|j: int| 1 <= j < ks.len() implies ks[j] == t[j - 1] by {}
        if key_pos(t, k) >= 0 {
            assert forall|j: int| 0 <= j < key_pos(ks, k) implies !same_key(#[trigger] ks[j], k) by {
                if j > 0 {
                    assert(ks[j] == t[j - 1]);
                }
            }
        } else {
            assert forall|j: int| 0 <= j < ks.len() implies !same_key(#[trigger] ks[j], k) by {
                if j > 0 {
                    assert(ks[j] == t[j - 1]);
                }
            }
        }
    }
}

/// Whether some key is the same as `k`.
pub open spec fn has_key(ks: Seq<(Seq<char>, Seq<char>)>, k: (Seq<char>, Seq<char>)) -> bool {
    exists|j: int| 0 <= j < ks.len() && same_key(#[trigger] ks[j], k)
}

/// A key is found exactly when some key is the same.
pub proof fn lemma_has_key(ks: Seq<(Seq<char>, Seq<char>)>, k: (Seq<char>, Seq<char>))
    ensures
        has_key(ks, k) <==> key_pos(ks, k) >= 0,
{
    lemma_key_pos(ks, k);
    if key_pos(ks, k) >= 0 {
        let p = key_pos(ks, k);
        assert(same_key(ks[p], k));
    }
}

/// Inserting a new key at the place where it belongs keeps the keys
/// ordered, and keeps every key that was there.
proof fn lemma_insert_keys(ks: Seq<(Seq<char>, Seq<char>)>, pos: int, k: (Seq<char>, Seq<char>))
    requires
        keys_ordered(ks),
        0 <= pos <= ks.len(),
        forall|j: int| 0 <= j < ks.len() ==> !same_key(#[trigger] ks[j], k),
        forall|j: int| 0 <= j < pos ==> control_order(#[trigger] ks[j], k) == Ordering::Less,
        pos < ks.len() ==> control_order(k, ks[pos]) == Ordering::Less,
    ensures
        keys_ordered(ks.insert(pos, k)),
        has_key(ks.insert(pos, k), k),
        forall|k2: (Seq<char>, Seq<char>)| #[trigger] has_key(ks, k2) ==> has_key(ks.insert(pos, k), k2),
{
    let nk = ks.insert(pos, k);
    lemma_control_order_reflexive(k);
    assert(same_key(nk[pos], k));
    assert forall|k2: (Seq<char>, Seq<char>)| #[trigger] has_key(ks, k2) implies has_key(nk, k2) by {
        let j = choose|j: int| 0 <= j < ks.len() && same_key(#[trigger] ks[j], k2);
        if j < pos {
            assert(nk[j] == ks[j]);
        } else {
            assert(nk[j + 1] == ks[j]);
        }
    }
    assert forall|i: int, j: int| 0 <= i && j == i + 1 && j < nk.len() implies control_order(
        #[trigger] nk[i],
        #[trigger] nk[j],
    ) == Ordering::Less by {
        if j < pos {
            assert(nk[i] == ks[i] && nk[j] == ks[j]);
        } else if j == pos {
            assert(nk[j] == k && nk[i] == ks[i]);
        } else if i == pos {
            assert(nk[i] == k && nk[j] == ks[pos]);
        } else {
            assert(nk[i] == ks[i - 1] && nk[j] == ks[j - 1]);
        }
    }
    assert forall|i: int, j: int| 0 <= i < j < nk.len() implies !same_key(#[trigger] nk[i], #[trigger] nk[j]) by {
        if j < pos {
            assert(nk[i] == ks[i] && nk[j] == ks[j]);
        } else if j == pos {
            assert(nk[j] == k && nk[i] == ks[i]);
            assert(!same_key(ks[i], k));
            lemma_control_order_antisymmetric(ks[i], k);
        } else if i == pos {
            assert(nk[i] == k && nk[j] == ks[j - 1]);
            assert(!same_key(ks[j - 1], k));
            lemma_control_order_antisymmetric(ks[j - 1], k);
        } else if i < pos {
            assert(nk[i] == ks[i] && nk[j] == ks[j - 1]);
        } else {
            assert(nk[i] == ks[i - 1] && nk[j] == ks[j - 1]);
        }
    }
}

/// `p` is where `k` belongs among the ordered keys `ks`: every key before it
/// comes first in natural order, and `k` comes before the key now at `p`.
pub open spec fn sorted_slot(ks: Seq<(Seq<char>, Seq<char>)>, p: int, k: (Seq<char>, Seq<char>)) -> bool {
    &&& forall|j: int| 0 <= j < p ==> control_order(#[trigger] ks[j], k) == Ordering::Less
    &&& p < ks.len() ==> control_order(k, ks[p]) == Ordering::Less
}

impl Matrix {
    /// Rows in natural order with distinct identifiers.
    pub open spec fn wf(&self) -> bool {
        keys_ordered(row_keys(self.entries@))
    }

    /// The identifiers of the rows, in order.
    pub open spec fn keys(&self) -> Seq<(Seq<char>, Seq<char>)> {
        row_keys(self.entries@)
    }

    /// An empty matrix for a framework.
    pub fn new(framework: Framework, level: Option<u8>, scope: Scope) -> (m: Matrix)
        ensures
            m.framework == framework,
            m.level == level,
            m.scope == scope,
            m.entries@.len() == 0,
            m.wf(),
    {
        Matrix { framework, level, scope, entries: Vec::new() }
    }

    /// The row of a control, as a map lookup by the identifier order.
    pub fn position(&self, id: &ControlId) -> (r: Option<usize>)
        ensures
            r matches Some(i) ==> ix(i) == key_pos(self.keys(), id@) && i < self.entries@.len(),
            r is None ==> key_pos(self.keys(), id@) < 0,
    {
        let ghost ks = self.keys();
        proof {
            lemma_key_pos(ks, id@);
        }
        let mut i: usize = 0;
        while i < self.entries.len()
            invariant
                ks == row_keys(self.entries@),
                i <= self.entries@.len(),
                forall|j: int| 0 <= j < i ==> !same_key(#[trigger] ks[j], id@),
                -1 <= key_pos(ks, id@) < ks.len(),
                key_pos(ks, id@) >= 0 ==> same_key(ks[key_pos(ks, id@)], id@),
                key_pos(ks, id@) >= 0 ==> forall|j: int|
                    0 <= j < key_pos(ks, id@) ==> !same_key(#[trigger] ks[j], id@),
                key_pos(ks, id@) < 0 ==> forall|j: int| 0 <= j < ks.len() ==> !same_key(#[trigger] ks[j], id@),
            decreases self.entries.len() - i,
        {
            let o = self.entries[i].0.compare(id);
            assert(ks[ix(i)] == self.entries@[ix(i)].0@);
            match o {
                Ordering::Equal => {
                    return Some(i);
                },
                _ => {},
            }
            i += 1;
        }
        None
    }

    /// Whether a control has a row.
    pub fn contains(&self, id: &ControlId) -> (b: bool)
        ensures
            b == (key_pos(self.keys(), id@) >= 0),
    {
        self.position(id).is_some()
    }

    /// Adds a row for `id`, or replaces the entry of the row that is the same
    /// control (keeping that row's identifier), as a map insertion does.
    pub fn insert(&mut self, id: ControlId, entry: MatrixEntry)
        requires
            old(self).wf(),
        ensures
            final(self).wf(),
            final(self).framework == old(self).framework,
            final(self).level == old(self).level,
            final(self).scope == old(self).scope,
            key_pos(old(self).keys(), id@) >= 0 ==> ({
                let p = key_pos(old(self).keys(), id@);
                final(self).entries@ == old(self).entries@.update(p, (old(self).entries@[p].0, entry))
            }),
            key_pos(old(self).keys(), id@) < 0 ==> exists|p: int|
                0 <= p <= old(self).entries@.len() && final(self).entries@
                    == old(self).entries@.insert(p, (id, entry))
                && sorted_slot(old(self).keys(), p, id@),
            has_key(final(self).keys(), id@),
            forall|k: (Seq<char>, Seq<char>)| #[trigger] has_key(old(self).keys(), k) ==> has_key(final(self).keys(), k),
            final(self).entries@.len() <= old(self).entries@.len() + 1,
            forall|j: int| 0 <= j < final(self).entries@.len() ==> old(self).entries@.contains(
                #[trigger] final(self).entries@[j],
            ) || (final(self).entries@[j].1 == entry && (final(self).entries@[j].0@ == id@
                || old(self).keys().contains(final(self).entries@[j].0@))),
    {
        let ghost ks = self.keys();
        match self.position(&id) {
            Some(i) => {
                proof {
                    lemma_key_pos(ks, id@);
                }
                let (k, _) = self.entries.remove(i);
                self.entries.insert(i, (k, entry));
                proof {
                    assert(self.entries@ == old(self).entries@.update(ix(i), (k, entry)));
                    assert(row_keys(self.entries@) == ks);
                    assert(same_key(ks[ix(i)], id@));
                    assert(ks[ix(i)] == k@);
                    assert forall|j: int| 0 <= j < self.entries@.len() implies old(self).entries@.contains(
                        #[trigger] self.entries@[j],
                    ) || (self.entries@[j].1 == entry && (self.entries@[j].0@ == id@
                        || old(self).keys().contains(self.entries@[j].0@))) by {
                        if j != ix(i) {
                            assert(self.entries@[j] == old(self).entries@[j]);
                        } else {
                            assert(ks[j] == self.entries@[j].0@);
                        }
                    }
                }
            },
            None => {
                proof {
                    lemma_key_pos(ks, id@);
                }
                let mut p: usize = 0;
                while p < self.entries.len()
                    invariant
                        ks == row_keys(self.entries@),
                        self.entries@ == old(self).entries@,
                        keys_ordered(ks),
                        p <= self.entries@.len(),
                        forall|j: int| 0 <= j < ks.len() ==> !same_key(#[trigger] ks[j], id@),
                        forall|j: int| 0 <= j < p ==> control_order(#[trigger] ks[j], id@) == Ordering::Less,
                    ensures
                        ks == row_keys(self.entries@),
                        self.entries@ == old(self).entries@,
                        p <= self.entries@.len(),
                        forall|j: int| 0 <= j < p ==> control_order(#[trigger] ks[j], id@) == Ordering::Less,
                        p < self.entries@.len() ==> control_order(id@, ks[ix(p)]) == Ordering::Less,
                    decreases self.entries.len() - p,
                {
                    let o = id.compare(&self.entries[p].0);
                    assert(ks[ix(p)] == self.entries@[ix(p)].0@);
                    proof {
                        lemma_control_order_antisymmetric(id@, ks[ix(p)]);
                    }
                    match o {
                        Ordering::Less => {
                            break;
                        },
                        _ => {},
                    }
                    p += 1;
                }
                let ghost pos = ix(p);
                self.entries.insert(p, (id, entry));
                proof {
                    assert(row_keys(self.entries@) == ks.insert(pos, id@));
                    lemma_insert_keys(ks, pos, id@);
                    assert(self.entries@ == old(self).entries@.insert(pos, (id, entry)));
                    assert(sorted_slot(ks, pos, id@));
                    assert forall|j: int| 0 <= j < self.entries@.len() implies old(self).entries@.contains(
                        #[trigger] self.entries@[j],
                    ) || (self.entries@[j].1 == entry && (self.entries@[j].0@ == id@
                        || old(self).keys().contains(self.entries@[j].0@))) by {
                        if j < pos {
                            assert(self.entries@[j] == old(self).entries@[j]);
                        } else if j > pos {
                            assert(self.entries@[j] == old(self).entries@[j - 1]);
                        }
                    }
                }
            },
        }
    }
}

/// Optional notes of a matrix update, built step by step.
#[derive(Debug, Clone)]
pub struct MatrixSetOptions {
    gap: Option<String>,
    owner: Option<String>,
    remediation: Option<String>,
}

impl View for MatrixSetOptions {
    /// (gap, owner, remediation)
    type V = (Option<Seq<char>>, Option<Seq<char>>, Option<Seq<char>>);

    closed spec fn view(&self) -> Self::V {
        (opt_text(self.gap), opt_text(self.owner), opt_text(self.remediation))
    }
}

/// The text of an optional string.
pub open spec fn opt_text(o: Option<String>) -> Option<Seq<char>> {
    match o {
        Some(s) => Some(s@),
        None => None,
    }
}

/// The notes (gap, owner, remediation) of a matrix update.
pub type SetNotes = (Option<Seq<char>>, Option<Seq<char>>, Option<Seq<char>>);

/// The notes with the gap set.
pub open spec fn with_gap(n: SetNotes, gap: Seq<char>) -> SetNotes {
    (Some(gap), n.1, n.2)
}

/// The notes with the owner set.
pub open spec fn with_owner(n: SetNotes, owner: Seq<char>) -> SetNotes {
    (n.0, Some(owner), n.2)
}

/// The notes with the remediation set.
pub open spec fn with_remediation(n: SetNotes, remediation: Seq<char>) -> SetNotes {
    (n.0, n.1, Some(remediation))
}

/// The builder steps set one note each and leave the others alone, so their
/// order does not matter: any order gives the notes `from_optional` makes of
/// the same values.
pub proof fn lemma_set_options_order_free(n: SetNotes, g: Seq<char>, w: Seq<char>, m: Seq<char>)
    ensures
        with_owner(with_gap(n, g), w) == with_gap(with_owner(n, w), g),
        with_remediation(with_gap(n, g), m) == with_gap(with_remediation(n, m), g),
        with_remediation(with_owner(n, w), m) == with_owner(with_remediation(n, m), w),
        with_remediation(with_owner(with_gap(n, g), w), m) == (Some(g), Some(w), Some(m)),
{
}

impl MatrixSetOptions {
    /// No notes.
    pub fn new() -> (o: Self)
        ensures
            o@ == (None::<Seq<char>>, None::<Seq<char>>, None::<Seq<char>>),
    {
        MatrixSetOptions { gap: None, owner: None, remediation: None }
    }

    /// With a gap (or the reason for `na`).
    pub fn gap(self, gap: &str) -> (o: Self)
        ensures
            o@ == with_gap(self@, gap@),
    {
        MatrixSetOptions { gap: Some(owned(gap)), owner: self.owner, remediation: self.remediation }
    }

    /// With an owner.
    pub fn owner(self, owner: &str) -> (o: Self)
        ensures
            o@ == with_owner(self@, owner@),
    {
        MatrixSetOptions { gap: self.gap, owner: Some(owned(owner)), remediation: self.remediation }
    }

    /// With a remediation plan or its progress.
    pub fn remediation(self, remediation: &str) -> (o: Self)
        ensures
            o@ == with_remediation(self@, remediation@),
    {
        MatrixSetOptions { gap: self.gap, owner: self.owner, remediation: Some(owned(remediation)) }
    }

    /// All three notes at once.
    pub fn from_optional(gap: Option<String>, owner: Option<String>, remediation: Option<String>) -> (o: Self)
        ensures
            o@ == (opt_text(gap), opt_text(owner), opt_text(remediation)),
    {
        MatrixSetOptions { gap, owner, remediation }
    }
}

/// Statuses that must be explained by a gap (or, for `na`, a reason).
pub open spec fn needs_reason(s: ControlStatus) -> bool {
    s is Partial || s is Gap || s is Na
}

/// The invariant between status and gap that `set` keeps: explained statuses
/// carry a non-blank gap, the others none.
pub open spec fn gap_consistent(status: ControlStatus, gap: Seq<char>) -> bool {
    if needs_reason(status) {
        !is_blank(gap)
    } else {
        gap.len() == 0
    }
}

/// Why a matrix update is refused.
#[derive(Debug, Clone)]
pub enum MatrixError {
    /// The control is not `<framework>:<control_id>`.
    Control(ModelError),
    /// The status is not one of unassessed/met/partial/gap/na.
    Status(ModelError),
    /// A partial/gap/na status without `--gap`.
    MissingGap(ControlStatus),
    /// A partial/gap/na status with a blank `--gap`.
    BlankGap(ControlStatus),
    /// An unassessed/met status with a gap.
    UnexpectedGap(ControlStatus),
    /// A blank `--remediation`.
    BlankRemediation,
    /// `link` without any of evidence, fact or project fact.
    NothingToLink,
    /// The control has no row in the matrix.
    NotInMatrix(ControlId),
}

/// The checks of `set`, in the order they are made.
#[derive(Debug, Clone, Copy, PartialEq, Eq, Structural)]
pub enum SetFault {
    Control,
    Status,
    MissingGap,
    BlankGap,
    UnexpectedGap,
    BlankRemediation,
}

/// The first check of `set` that fails, if any.
pub open spec fn set_fault(control: Seq<char>, status: Seq<char>, gap: Option<Seq<char>>, remediation: Option<Seq<char>>) -> Option<SetFault> {
    if parse_id(control) is Err {
        Some(SetFault::Control)
    } else if status_from_text(status) is None {
        Some(SetFault::Status)
    } else if needs_reason(status_from_text(status).unwrap()) && gap is None {
        Some(SetFault::MissingGap)
    } else if needs_reason(status_from_text(status).unwrap()) && is_blank(gap.unwrap()) {
        Some(SetFault::BlankGap)
    } else if !needs_reason(status_from_text(status).unwrap()) && gap is Some && !is_blank(gap.unwrap()) {
        Some(SetFault::UnexpectedGap)
    } else if remediation is Some && is_blank(remediation.unwrap()) {
        Some(SetFault::BlankRemediation)
    } else {
        None
    }
}

/// The kind of a `set` error.
pub open spec fn set_fault_of(e: MatrixError) -> Option<SetFault> {
    match e {
        MatrixError::Control(_) => Some(SetFault::Control),
        MatrixError::Status(_) => Some(SetFault::Status),
        MatrixError::MissingGap(_) => Some(SetFault::MissingGap),
        MatrixError::BlankGap(_) => Some(SetFault::BlankGap),
        MatrixError::UnexpectedGap(_) => Some(SetFault::UnexpectedGap),
        MatrixError::BlankRemediation => Some(SetFault::BlankRemediation),
        _ => None,
    }
}

/// A checked `matrix set`.
#[derive(Debug, Clone)]
pub struct SetRequest {
    pub control: ControlId,
    pub status: ControlStatus,
    /// The gap to record; only kept for statuses that need one.
    pub gap: Option<String>,
    pub owner: Option<String>,
    pub remediation: Option<String>,
}

/// Checks a `matrix set` request before any file is touched.
pub fn set_request(control: &str, status: &str, options: MatrixSetOptions) -> (r: Result<SetRequest, MatrixError>)
    ensures
        r is Ok <==> set_fault(control@, status@, options@.0, options@.2) is None,
        r matches Err(e) ==> set_fault_of(e) == set_fault(control@, status@, options@.0, options@.2),
        r matches Ok(q) ==> {
            &&& parse_id(control@) == Ok::<(Seq<char>, Seq<char>), ControlIdFault>(q.control@)
            &&& status_from_text(status@) == Some(q.status)
            &&& opt_text(q.gap) == options@.0
            &&& opt_text(q.owner) == options@.1
            &&& opt_text(q.remediation) == options@.2
            &&& (needs_reason(q.status) ==> q.gap is Some && !is_blank(q.gap.unwrap()@))
        },
{
    let MatrixSetOptions { gap, owner, remediation } = options;
    let cid = match ControlId::parse(control) {
        Ok(c) => c,
        Err(e) => {
            return Err(MatrixError::Control(e));
        },
    };
    let st = match ControlStatus::parse(status) {
        Ok(s) => s,
        Err(e) => {
            return Err(MatrixError::Status(e));
        },
    };
    let needs = match st {
        ControlStatus::Partial | ControlStatus::Gap | ControlStatus::Na => true,
        _ => false,
    };
    if needs {
        match &gap {
            None => {
                return Err(MatrixError::MissingGap(st));
            },
            Some(g) => {
                if blank(g.as_str()) {
                    return Err(MatrixError::BlankGap(st));
                }
            },
        }
    } else {
        match &gap {
            Some(g) => {
                if !blank(g.as_str()) {
                    return Err(MatrixError::UnexpectedGap(st));
                }
            },
            None => {},
        }
    }
    match &remediation {
        Some(m) => {
            if blank(m.as_str()) {
                return Err(MatrixError::BlankRemediation);
            }
        },
        None => {},
    }
    Ok(SetRequest { control: cid, status: st, gap, owner, remediation })
}

/// An entry after `set`: the new status, the gap kept only where the status
/// needs one, owner and remediation replaced where given, the date stamped,
/// and the references untouched.
pub open spec fn set_applied(e: MatrixEntry, e2: MatrixEntry, q: SetRequest, today: Date) -> bool {
    &&& e2.status == q.status
    &&& e2.gap@ == (if needs_reason(q.status) { q.gap.unwrap()@ } else { Seq::<char>::empty() })
    &&& e2.owner@ == (match q.owner { Some(o) => o@, None => e.owner@ })
    &&& e2.remediation@ == (match q.remediation { Some(m) => m@, None => e.remediation@ })
    &&& e2.last_updated == Some(today)
    &&& e2.evidence == e.evidence
    &&& e2.facts == e.facts
    &&& e2.project_facts == e.project_facts
    &&& e2.ingest == e.ingest
}

/// A list after linking `x`: unchanged when it already holds `x`, else with
/// `x` appended.
pub open spec fn linked(list: Seq<String>, x: Option<String>) -> Seq<String> {
    match x {
        Some(s) => if has_text(list, s@) { list } else { list.push(s) },
        None => list,
    }
}

/// A checked `matrix link`.
#[derive(Debug, Clone)]
pub struct LinkRequest {
    pub control: ControlId,
    pub evidence: Option<String>,
    pub fact: Option<String>,
    pub project_fact: Option<String>,
}

/// Checks a `matrix link` request: something to link, and a valid control.
pub fn link_request(control: &str, evidence: Option<String>, fact: Option<String>, project_fact: Option<String>) -> (r: Result<LinkRequest, MatrixError>)
    ensures
        (evidence is None && fact is None && project_fact is None) ==> r matches Err(MatrixError::NothingToLink),
        !(evidence is None && fact is None && project_fact is None) ==> match parse_id(control@) {
            Err(_) => r matches Err(MatrixError::Control(_)),
            Ok(k) => (r matches Ok(q) && q.control@ == k && q.evidence == evidence && q.fact == fact
                && q.project_fact == project_fact),
        },
{
    if evidence.is_none() && fact.is_none() && project_fact.is_none() {
        return Err(MatrixError::NothingToLink);
    }
    match ControlId::parse(control) {
        Ok(cid) => Ok(LinkRequest { control: cid, evidence, fact, project_fact }),
        Err(e) => Err(MatrixError::Control(e)),
    }
}

/// Appends `x` to `list` unless an equal string is already there.
fn link_into(list: &mut Vec<String>, x: &Option<String>)
    ensures
        final(list)@ == linked(old(list)@, *x),
{
    match x {
        Some(s) => {
            if !contains_text(list, s.as_str()) {
                list.push(s.clone());
            }
        },
        None => {},
    }
}

/// The entry after `link`: each given reference added once, the date stamped.
pub open spec fn link_applied(e: MatrixEntry, e2: MatrixEntry, q: LinkRequest, today: Date) -> bool {
    &&& e2.evidence@ == linked(e.evidence@, q.evidence)
    &&& e2.facts@ == linked(e.facts@, q.fact)
    &&& e2.project_facts@ == linked(e.project_facts@, q.project_fact)
    &&& e2.last_updated == Some(today)
    &&& e2.status == e.status
    &&& e2.owner == e.owner
    &&& e2.gap == e.gap
    &&& e2.remediation == e.remediation
    &&& e2.ingest == e.ingest
}

/// Every row other than `i` is unchanged, and row `i` keeps its identifier.
pub open spec fn only_row_changed(a: Seq<(ControlId, MatrixEntry)>, b: Seq<(ControlId, MatrixEntry)>, i: int) -> bool {
    &&& a.len() == b.len()
    &&& 0 <= i < a.len()
    &&& b[i].0 == a[i].0
    &&& forall|j: int| 0 <= j < a.len() && j != i ==> #[trigger] b[j] == a[j]
}

impl Matrix {
    /// Takes row `i` out for an update; `put_back` returns it.
    fn take_row(&mut self, i: usize) -> (r: (ControlId, MatrixEntry))
        requires
            i < old(self).entries@.len(),
        ensures
            r == old(self).entries@[ix(i)],
            final(self).entries@ == old(self).entries@.remove(ix(i)),
            final(self).framework == old(self).framework,
            final(self).level == old(self).level,
            final(self).scope == old(self).scope,
    {
        self.entries.remove(i)
    }

    /// Applies a checked `set` to the row of its control.
    pub fn set_entry(&mut self, q: SetRequest, today: Date) -> (r: Result<(), MatrixError>)
        requires
            needs_reason(q.status) ==> q.gap is Some && !is_blank(q.gap.unwrap()@),
        ensures
            final(self).framework == old(self).framework,
            final(self).level == old(self).level,
            final(self).scope == old(self).scope,
            key_pos(old(self).keys(), q.control@) < 0 ==> (r matches Err(MatrixError::NotInMatrix(c))
                && c == q.control && final(self).entries@ == old(self).entries@),
            key_pos(old(self).keys(), q.control@) >= 0 ==> r is Ok && ({
                let i = key_pos(old(self).keys(), q.control@);
                &&& only_row_changed(old(self).entries@, final(self).entries@, i)
                &&& set_applied(old(self).entries@[i].1, final(self).entries@[i].1, q, today)
                &&& gap_consistent(final(self).entries@[i].1.status, final(self).entries@[i].1.gap@)
            }),
            old(self).wf() ==> final(self).wf(),
    {
        let i = match self.position(&q.control) {
            None => {
                return Err(MatrixError::NotInMatrix(q.control));
            },
            Some(i) => i,
        };
        let ghost before = self.entries@;
        let (k, mut e) = self.take_row(i);
        let SetRequest { control: _, status, gap, owner, remediation } = q;
        e.status = status;
        match status {
            ControlStatus::Partial | ControlStatus::Gap | ControlStatus::Na => {
                match gap {
                    Some(g) => {
                        e.gap = g;
                    },
                    None => {},
                }
            },
            _ => {
                e.gap = String::new();
            },
        }
        match owner {
            Some(o) => {
                e.owner = o;
            },
            None => {},
        }
        match remediation {
            Some(m) => {
                e.remediation = m;
            },
            None => {},
        }
        e.last_updated = Some(today);
        self.entries.insert(i, (k, e));
        proof {
            assert(self.entries@ == before.update(ix(i), (k, e)));
            assert(row_keys(self.entries@) == row_keys(before));
        }
        Ok(())
    }

    /// Applies a checked `link` to the row of its control.
    pub fn link_entry(&mut self, q: &LinkRequest, today: Date) -> (r: Result<(), MatrixError>)
        ensures
            final(self).framework == old(self).framework,
            final(self).level == old(self).level,
            final(self).scope == old(self).scope,
            key_pos(old(self).keys(), q.control@) < 0 ==> (r matches Err(MatrixError::NotInMatrix(c))
                && c@ == q.control@ && final(self).entries@ == old(self).entries@),
            key_pos(old(self).keys(), q.control@) >= 0 ==> r is Ok && ({
                let i = key_pos(old(self).keys(), q.control@);
                &&& only_row_changed(old(self).entries@, final(self).entries@, i)
                &&& link_applied(old(self).entries@[i].1, final(self).entries@[i].1, *q, today)
            }),
            old(self).wf() ==> final(self).wf(),
    {
        let i = match self.position(&q.control) {
            None => {
                return Err(MatrixError::NotInMatrix(q.control.duplicate()));
            },
            Some(i) => i,
        };
        let ghost before = self.entries@;
        let (k, mut e) = self.take_row(i);
        link_into(&mut e.evidence, &q.evidence);
        link_into(&mut e.facts, &q.fact);
        link_into(&mut e.project_facts, &q.project_fact);
        e.last_updated = Some(today);
        self.entries.insert(i, (k, e));
        proof {
            assert(self.entries@ == before.update(ix(i), (k, e)));
            assert(row_keys(self.entries@) == row_keys(before));
        }
        Ok(())
    }
}

/// Linking the same reference again changes nothing: the reference is there
/// once, and a second link leaves the list as the first left it.
pub proof fn lemma_link_idempotent(list: Seq<String>, x: Option<String>)
    ensures
        linked(linked(list, x), x) == linked(list, x),
        x matches Some(s) ==> has_text(linked(list, x), s@),
{
    match x {
        Some(s) => {
            if !has_text(list, s@) {
                let l2 = list.push(s);
                assert(l2[list.len() as int]@ == s@);
                assert(has_text(l2, s@));
            }
        },
        None => {},
    }
}

/// Linking never introduces a second copy of a reference: a list without
/// repeated texts stays so.
pub proof fn lemma_link_keeps_distinct(list: Seq<String>, x: Option<String>)
    requires
        forall|i: int, j: int| 0 <= i < j < list.len() ==> (#[trigger] list[i])@ != (#[trigger] list[j])@,
    ensures
        forall|i: int, j: int| 0 <= i < j < linked(list, x).len() ==> (#[trigger] linked(list, x)[i])@
            != (#[trigger] linked(list, x)[j])@,
{
    match x {
        Some(s) => {
            if !has_text(list, s@) {
                let l2 = list.push(s);
                assert forall|i: int, j: int| 0 <= i < j < l2.len() implies (#[trigger] l2[i])@
                    != (#[trigger] l2[j])@ by {
                    if j == list.len() {
                        assert(l2[i] == list[i]);
                        assert(list[i]@ != s@);
                    } else {
                        assert(l2[i] == list[i] && l2[j] == list[j]);
                    }
                }
            }
        },
        None => {},
    }
}

/// Whether an entry passes an optional status filter.
pub open spec fn status_kept(e: MatrixEntry, filter: Option<ControlStatus>) -> bool {
    match filter {
        Some(f) => e.status == f,
        None => true,
    }
}

/// One line of `matrix show`.
pub open spec fn show_line(k: ControlId, e: MatrixEntry) -> Seq<char> {
    id_text(k@) + "  ["@ + status_text(e.status) + "]  owner="@ + or_dash(e.owner@, "-"@) + "  ev="@
        + dec(e.evidence@.len()) + " sf="@ + dec(e.facts@.len()) + " pf="@ + dec(e.project_facts@.len())
        + "  gap: "@ + or_dash(e.gap@, "(无)"@) + "\n"@
}

/// The lines of the rows that pass the filter, in matrix order.
pub open spec fn show_lines(rows: Seq<(ControlId, MatrixEntry)>, filter: Option<ControlStatus>) -> Seq<char>
    decreases rows.len(),
{
    if rows.len() == 0 {
        Seq::empty()
    } else {
        show_lines(rows.drop_last(), filter) + if status_kept(rows.last().1, filter) {
            show_line(rows.last().0, rows.last().1)
        } else {
            Seq::empty()
        }
    }
}

/// How many rows pass the filter.
pub open spec fn shown_count(rows: Seq<(ControlId, MatrixEntry)>, filter: Option<ControlStatus>) -> nat
    decreases rows.len(),
{
    if rows.len() == 0 {
        0
    } else {
        shown_count(rows.drop_last(), filter) + if status_kept(rows.last().1, filter) {
            1nat
        } else {
            0nat
        }
    }
}

/// The whole text of `matrix show`.
pub open spec fn show_text(rows: Seq<(ControlId, MatrixEntry)>, filter: Option<ControlStatus>) -> Seq<char> {
    show_lines(rows, filter) + "\n"@ + dec(shown_count(rows, filter)) + " entries\n"@
}

/// The lines of the rows that pass the filter hold the line of each of them.
proof fn lemma_show_lines_hold(rows: Seq<(ControlId, MatrixEntry)>, filter: Option<ControlStatus>, i: int)
    requires
        0 <= i < rows.len(),
        status_kept(rows[i].1, filter),
    ensures
        contains_seq(show_lines(rows, filter), show_line(rows[i].0, rows[i].1)),
    decreases rows.len(),
{
    let init = rows.drop_last();
    let prev = show_lines(init, filter);
    let tail = if status_kept(rows.last().1, filter) {
        show_line(rows.last().0, rows.last().1)
    } else {
        Seq::<char>::empty()
    };
    lemma_contains_halves(prev, tail);
    if i < rows.len() - 1 {
        assert(init[i] == rows[i]);
        lemma_show_lines_hold(init, filter, i);
        lemma_contains_trans(show_lines(rows, filter), prev, show_line(rows[i].0, rows[i].1));
    }
}

/// `matrix show` gives every row that passes the filter with its control,
/// status and owner, and counts its references truly: `ev=` the evidence,
/// `sf=` the system facts and `pf=` the project facts that the entry holds.
#[verifier::spinoff_prover]
pub proof fn lemma_show_counts_references(rows: Seq<(ControlId, MatrixEntry)>, filter: Option<ControlStatus>, i: int)
    requires
        0 <= i < rows.len(),
        status_kept(rows[i].1, filter),
    ensures
        contains_seq(
            show_text(rows, filter),
            id_text(rows[i].0@) + "  ["@ + status_text(rows[i].1.status) + "]  owner="@ + or_dash(rows[i].1.owner@, "-"@)
                + "  ev="@ + dec(rows[i].1.evidence@.len()) + " sf="@ + dec(rows[i].1.facts@.len()) + " pf="@ + dec(
                rows[i].1.project_facts@.len(),
            ),
        ),
{
    let k = rows[i].0;
    let e = rows[i].1;
    let p = id_text(k@) + "  ["@ + status_text(e.status) + "]  owner="@ + or_dash(e.owner@, "-"@) + "  ev="@ + dec(
        e.evidence@.len(),
    ) + " sf="@ + dec(e.facts@.len()) + " pf="@ + dec(e.project_facts@.len());
    let l = show_line(k, e);
    lemma_contains_halves(p + "  gap: "@ + or_dash(e.gap@, "(无)"@), "\n"@);
    lemma_contains_halves(p + "  gap: "@, or_dash(e.gap@, "(无)"@));
    lemma_contains_halves(p, "  gap: "@);
    lemma_contains_trans(l, p + "  gap: "@ + or_dash(e.gap@, "(无)"@), p + "  gap: "@);
    lemma_contains_trans(l, p + "  gap: "@, p);
    lemma_show_lines_hold(rows, filter, i);
    let t = show_text(rows, filter);
    let ls = show_lines(rows, filter);
    lemma_contains_halves(ls + "\n"@ + dec(shown_count(rows, filter)), " entries\n"@);
    lemma_contains_halves(ls + "\n"@, dec(shown_count(rows, filter)));
    lemma_contains_halves(ls, "\n"@);
    lemma_contains_trans(t, ls + "\n"@ + dec(shown_count(rows, filter)), ls + "\n"@);
    lemma_contains_trans(t, ls + "\n"@, ls);
    lemma_contains_trans(t, ls, l);
    lemma_contains_trans(t, l, p);
}

fn append_or_dash(v: &mut Vec<char>, value: &String, dash: &str)
    ensures
        final(v)@ == old(v)@ + or_dash(value@, dash@),
{
    if value.as_str().is_empty() {
        append_str(v, dash);
    } else {
        append_str(v, value.as_str());
    }
}

fn push_show_line(v: &mut Vec<char>, k: &ControlId, e: &MatrixEntry)
    ensures
        final(v)@ == old(v)@ + show_line(*k, *e),
{
    let id = k.to_text();
    append_str(v, id.as_str());
    append_str(v, "  [");
    append_str(v, e.status.as_str());
    append_str(v, "]  owner=");
    append_or_dash(v, &e.owner, "-");
    append_str(v, "  ev=");
    append_dec(v, e.evidence.len());
    append_str(v, " sf=");
    append_dec(v, e.facts.len());
    append_str(v, " pf=");
    append_dec(v, e.project_facts.len());
    append_str(v, "  gap: ");
    append_or_dash(v, &e.gap, "(无)");
    append_str(v, "\n");
}

/// The position of the last row whose control is the same as `k`, or -1.
pub open spec fn last_row(rows: Seq<(ControlId, MatrixEntry)>, k: (Seq<char>, Seq<char>)) -> int
    decreases rows.len(),
{
    if rows.len() == 0 {
        -1
    } else if same_key(rows.last().0@, k) {
        rows.len() - 1
    } else {
        last_row(rows.drop_last(), k)
    }
}

/// Each row holds the entry of the last of `rows` given for its control.
pub open spec fn last_rows_win(entries: Seq<(ControlId, MatrixEntry)>, rows: Seq<(ControlId, MatrixEntry)>) -> bool {
    forall|j: int|
        0 <= j < entries.len() ==> 0 <= last_row(rows, (#[trigger] entries[j]).0@) < rows.len() && entries[j].1
            == rows[last_row(rows, entries[j].0@)].1 && same_key(rows[last_row(rows, entries[j].0@)].0@, entries[j].0@)
}

proof fn lemma_last_row_push(rows: Seq<(ControlId, MatrixEntry)>, x: (ControlId, MatrixEntry), k: (Seq<char>, Seq<char>))
    ensures
        same_key(x.0@, k) ==> last_row(rows.push(x), k) == rows.len(),
        !same_key(x.0@, k) ==> last_row(rows.push(x), k) == last_row(rows, k),
{
    assert(rows.push(x).drop_last() =~= rows);
}

proof fn lemma_from_rows_step(
    before: Seq<(ControlId, MatrixEntry)>,
    after: Seq<(ControlId, MatrixEntry)>,
    done: Seq<(ControlId, MatrixEntry)>,
    x: (ControlId, MatrixEntry),
)
    requires
        keys_ordered(row_keys(before)),
        last_rows_win(before, done),
        key_pos(row_keys(before), x.0@) >= 0 ==> after == before.update(
            key_pos(row_keys(before), x.0@),
            (before[key_pos(row_keys(before), x.0@)].0, x.1),
        ),
        key_pos(row_keys(before), x.0@) < 0 ==> exists|q: int|
            0 <= q <= before.len() && after == before.insert(q, x),
    ensures
        last_rows_win(after, done.push(x)),
{
    let ks = row_keys(before);
    let t = done.push(x);
    lemma_key_pos(ks, x.0@);
    let p = key_pos(ks, x.0@);
    if p >= 0 {
        assert forall|j: int| 0 <= j < after.len() implies 0 <= last_row(t, (#[trigger] after[j]).0@) < t.len()
            && after[j].1 == t[last_row(t, after[j].0@)].1 && same_key(t[last_row(t, after[j].0@)].0@, after[j].0@) by {
            lemma_last_row_push(done, x, after[j].0@);
            if j == p {
                assert(ks[p] == before[p].0@);
                lemma_control_order_antisymmetric(ks[p], x.0@);
                assert(same_key(x.0@, after[j].0@));
            } else {
                assert(after[j] == before[j]);
                assert(ks[j] == before[j].0@);
                if same_key(x.0@, before[j].0@) {
                    lemma_control_order_equal_trans(ks[p], x.0@, ks[j]);
                    if j < p {
                        lemma_control_order_antisymmetric(ks[p], ks[j]);
                        assert(!same_key(ks[j], ks[p]));
                    } else {
                        assert(!same_key(ks[p], ks[j]));
                    }
                }
            }
        }
    } else {
        let q = choose|q: int| 0 <= q <= before.len() && after == before.insert(q, x);
        assert forall|j: int| 0 <= j < after.len() implies 0 <= last_row(t, (#[trigger] after[j]).0@) < t.len()
            && after[j].1 == t[last_row(t, after[j].0@)].1 && same_key(t[last_row(t, after[j].0@)].0@, after[j].0@) by {
            lemma_last_row_push(done, x, after[j].0@);
            if j == q {
                assert(after[j] == x);
                lemma_control_order_reflexive(x.0@);
            } else {
                let i = if j < q { j } else { j - 1 };
                assert(after[j] == before[i]);
                assert(ks[i] == before[i].0@);
                assert(!same_key(ks[i], x.0@));
                lemma_control_order_antisymmetric(ks[i], x.0@);
            }
        }
    }
}

/// The position of the first row whose control is the same as `k`, or -1.
#[verifier::opaque]
pub open spec fn first_row(rows: Seq<(ControlId, MatrixEntry)>, k: (Seq<char>, Seq<char>)) -> int
    decreases rows.len(),
{
    if rows.len() == 0 {
        -1
    } else if first_row(rows.drop_last(), k) >= 0 {
        first_row(rows.drop_last(), k)
    } else if same_key(rows.last().0@, k) {
        rows.len() - 1
    } else {
        -1
    }
}

/// Each row keeps the identifier of the first of `rows` given for its control.
#[verifier::opaque]
pub open spec fn first_ids_kept(entries: Seq<(ControlId, MatrixEntry)>, rows: Seq<(ControlId, MatrixEntry)>) -> bool {
    forall|j: int|
        0 <= j < entries.len() ==> 0 <= first_row(rows, (#[trigger] entries[j]).0@) < rows.len() && rows[first_row(
            rows,
            entries[j].0@,
        )].0 == entries[j].0
}

proof fn lemma_first_row_push(rows: Seq<(ControlId, MatrixEntry)>, x: (ControlId, MatrixEntry), k: (Seq<char>, Seq<char>))
    ensures
        first_row(rows, k) >= 0 ==> first_row(rows.push(x), k) == first_row(rows, k),
        first_row(rows, k) < 0 && same_key(x.0@, k) ==> first_row(rows.push(x), k) == rows.len(),
{
    reveal(first_row);
    assert(rows.push(x).drop_last() =~= rows);
}

proof fn lemma_first_row_found(rows: Seq<(ControlId, MatrixEntry)>, k: (Seq<char>, Seq<char>))
    ensures
        first_row(rows, k) < rows.len(),
        first_row(rows, k) >= 0 ==> same_key(rows[first_row(rows, k)].0@, k),
    decreases rows.len(),
{
    reveal(first_row);
    if rows.len() > 0 {
        lemma_first_row_found(rows.drop_last(), k);
    }
}

/// A control that no key names was not among rows that all have keys.
proof fn lemma_new_key_has_no_row(ks: Seq<(Seq<char>, Seq<char>)>, done: Seq<(ControlId, MatrixEntry)>, k: (Seq<char>, Seq<char>))
    requires
        forall|j: int| 0 <= j < ks.len() ==> !same_key(#[trigger] ks[j], k),
        forall|i: int| 0 <= i < done.len() ==> has_key(ks, (#[trigger] done[i]).0@),
    ensures
        first_row(done, k) < 0,
{
    lemma_first_row_found(done, k);
    if first_row(done, k) >= 0 {
        let f = first_row(done, k);
        assert(has_key(ks, done[f].0@));
        let i = choose|i: int| 0 <= i < ks.len() && same_key(#[trigger] ks[i], done[f].0@);
        lemma_control_order_equal_trans(ks[i], done[f].0@, k);
        assert(same_key(ks[i], k));
    }
}

proof fn lemma_prefix_rows_have_keys(ks: Seq<(Seq<char>, Seq<char>)>, all: Seq<(ControlId, MatrixEntry)>, n: int)
    requires
        0 <= n <= all.len(),
        forall|i: int| 0 <= i < n ==> has_key(ks, (#[trigger] all[i]).0@),
    ensures
        forall|i: int| 0 <= i < all.take(n).len() ==> has_key(ks, (#[trigger] all.take(n)[i]).0@),
{
    assert forall|i: int| 0 <= i < all.take(n).len() implies has_key(ks, (#[trigger] all.take(n)[i]).0@) by {
        assert(all.take(n)[i] == all[i]);
    }
}

#[verifier::spinoff_prover]
#[verifier::rlimit(30)]
proof fn lemma_first_ids_step(
    before: Seq<(ControlId, MatrixEntry)>,
    after: Seq<(ControlId, MatrixEntry)>,
    done: Seq<(ControlId, MatrixEntry)>,
    x: (ControlId, MatrixEntry),
)
    requires
        first_ids_kept(before, done),
        forall|i: int| 0 <= i < done.len() ==> has_key(row_keys(before), (#[trigger] done[i]).0@),
        key_pos(row_keys(before), x.0@) >= 0 ==> after == before.update(
            key_pos(row_keys(before), x.0@),
            (before[key_pos(row_keys(before), x.0@)].0, x.1),
        ),
        key_pos(row_keys(before), x.0@) < 0 ==> exists|q: int|
            0 <= q <= before.len() && after == before.insert(q, x),
    ensures
        first_ids_kept(after, done.push(x)),
{
    reveal(first_ids_kept);
    let ks = row_keys(before);
    let t = done.push(x);
    lemma_key_pos(ks, x.0@);
    let p = key_pos(ks, x.0@);
    if p >= 0 {
        assert forall|j: int| 0 <= j < after.len() implies 0 <= first_row(t, (#[trigger] after[j]).0@) < t.len()
            && t[first_row(t, after[j].0@)].0 == after[j].0 by {
            assert(after[j].0 == before[j].0);
            lemma_first_row_push(done, x, after[j].0@);
        }
    } else {
        let q = choose|q: int| 0 <= q <= before.len() && after == before.insert(q, x);
        assert forall|j: int| 0 <= j < after.len() implies 0 <= first_row(t, (#[trigger] after[j]).0@) < t.len()
            && t[first_row(t, after[j].0@)].0 == after[j].0 by {
            lemma_first_row_push(done, x, after[j].0@);
            if j == q {
                assert(after[j] == x);
                lemma_control_order_reflexive(x.0@);
                lemma_new_key_has_no_row(ks, done, x.0@);
            } else {
                let i = if j < q { j } else { j - 1 };
                assert(after[j] == before[i]);
            }
        }
    }
}

impl Matrix {
    /// `insert`, seen as one more of a list of rows given in order.
    fn put_row(&mut self, k: ControlId, e: MatrixEntry, Ghost(done): Ghost<Seq<(ControlId, MatrixEntry)>>)
        requires
            old(self).wf(),
            last_rows_win(old(self).entries@, done),
            first_ids_kept(old(self).entries@, done),
            forall|i: int| 0 <= i < done.len() ==> has_key(old(self).keys(), (#[trigger] done[i]).0@),
        ensures
            final(self).wf(),
            final(self).framework == old(self).framework,
            final(self).level == old(self).level,
            final(self).scope == old(self).scope,
            final(self).entries@.len() <= old(self).entries@.len() + 1,
            has_key(final(self).keys(), k@),
            forall|key: (Seq<char>, Seq<char>)| #[trigger] has_key(old(self).keys(), key) ==> has_key(final(self).keys(), key),
            last_rows_win(final(self).entries@, done.push((k, e))),
            first_ids_kept(final(self).entries@, done.push((k, e))),
    {
        let ghost before = self.entries@;
        let ghost x = (k, e);
        self.insert(k, e);
        proof {
            lemma_from_rows_step(before, self.entries@, done, x);
            lemma_first_ids_step(before, self.entries@, done, x);
        }
    }

    /// A matrix holding the given rows; a later row for the same control
    /// replaces the entry of an earlier one.
    #[verifier::spinoff_prover]
    #[verifier::rlimit(50)]
    pub fn from_rows(framework: Framework, level: Option<u8>, scope: Scope, rows: Vec<(ControlId, MatrixEntry)>) -> (m: Matrix)
        ensures
            m.wf(),
            m.framework == framework,
            m.level == level,
            m.scope == scope,
            m.entries@.len() <= rows@.len(),
            forall|i: int| 0 <= i < rows@.len() ==> has_key(m.keys(), (#[trigger] rows@[i]).0@),
            last_rows_win(m.entries@, rows@),
            first_ids_kept(m.entries@, rows@),
    {
        let mut m = Matrix::new(framework, level, scope);
        let mut rest = rows;
        let ghost all = rest@;
        let total = rest.len();
        let mut n: usize = 0;
        assert(first_ids_kept(m.entries@, all.take(0))) by {
            reveal(first_ids_kept);
        }
        while rest.len() > 0
            invariant
                m.wf(),
                m.framework == framework,
                m.level == level,
                m.scope == scope,
                all == rows@,
                all.len() == total,
                rest@ == all.skip(ix(n)),
                n <= all.len(),
                m.entries@.len() <= n,
                forall|i: int| 0 <= i < n ==> has_key(m.keys(), (#[trigger] all[i]).0@),
                last_rows_win(m.entries@, all.take(ix(n))),
                first_ids_kept(m.entries@, all.take(ix(n))),
            decreases rest.len(),
        {
            assert(rest@.len() == all.len() - n);
            let (k, e) = rest.remove(0);
            let ghost before = m.keys();
            assert(all[ix(n)] == (k, e));
            proof {
                lemma_prefix_rows_have_keys(m.keys(), all, n as int);
            }
            m.put_row(k, e, Ghost(all.take(ix(n))));
            proof {
                assert(all.take(ix(n)).push(all[ix(n)]) =~= all.take(n + 1));
                assert forall|i: int| 0 <= i < n + 1 implies has_key(m.keys(), (#[trigger] all[i]).0@) by {
                    if i < n {
                        assert(has_key(before, all[i].0@));
                    }
                }
            }
            n += 1;
            assert(rest@ == all.skip(ix(n)));
        }
        assert(all.take(ix(n)) =~= all);
        m
    }

    /// The text of `matrix show`, keeping only rows of `filter`'s status when given.
    pub fn show(&self, filter: Option<ControlStatus>) -> (s: String)
        ensures
            s@ == show_text(self.entries@, filter),
    {
        let mut v: Vec<char> = Vec::new();
        let mut count: usize = 0;
        let mut i: usize = 0;
        while i < self.entries.len()
            invariant
                i <= self.entries@.len(),
                v@ == show_lines(self.entries@.take(ix(i)), filter),
                count == shown_count(self.entries@.take(ix(i)), filter),
                count <= i,
            decreases self.entries.len() - i,
        {
            let ghost pre = self.entries@.take(ix(i));
            let ghost cur = self.entries@.take(i + 1);
            assert(cur.drop_last() == pre);
            assert(cur.last() == self.entries@[ix(i)]);
            let (k, e) = (&self.entries[i].0, &self.entries[i].1);
            let keep = match filter {
                Some(f) => e.status == f,
                None => true,
            };
            if keep {
                push_show_line(&mut v, k, e);
                count += 1;
            }
            i += 1;
        }
        assert(self.entries@.take(self.entries@.len() as int) == self.entries@);
        append_str(&mut v, "\n");
        append_dec(&mut v, count);
        append_str(&mut v, " entries\n");
        string_of(&v)
    }
}

/// The line of one system fact reference in a trace.
pub open spec fn sys_fact_line(fid: Seq<char>, facts: Seq<FactIndexEntry>, slug: Seq<char>) -> Seq<char> {
    let p = fact_pos(facts, fid);
    if p >= 0 {
        facts[p].id@ + "  "@ + facts[p].domain@ + "  "@ + facts[p].title@ + "\n"@
    } else {
        fid + "  (系统 `"@ + slug + "` 索引中缺失)\n"@
    }
}

/// The line of one project fact reference in a trace.
pub open spec fn project_fact_line(pid: Seq<char>, facts: Seq<ProjectFactIndexEntry>) -> Seq<char> {
    let p = project_fact_pos(facts, pid);
    if p >= 0 {
        facts[p].id@ + "  ["@ + crate::model::fact_kind_text(facts[p].kind) + "]  "@ + facts[p].title@ + "\n"@
    } else {
        pid + "  (项目事实索引中缺失)\n"@
    }
}

/// The line of one evidence reference in a trace; the digest is cut to 12 characters.
pub open spec fn evidence_line(eid: Seq<char>, es: Seq<Evidence>) -> Seq<char> {
    let p = evidence_pos(es, eid);
    if p >= 0 {
        es[p].id@ + "  ["@ + evidence_type_text(es[p].kind) + "]  "@ + es[p].file@ + "  sha256="@ + at_most(es[p].sha256@, 12) + "\n"@
    } else {
        eid + "  (索引中缺失)\n"@
    }
}

pub open spec fn sys_fact_lines(ids: Seq<String>, facts: Seq<FactIndexEntry>, slug: Seq<char>) -> Seq<char>
    decreases ids.len(),
{
    if ids.len() == 0 {
        Seq::empty()
    } else {
        sys_fact_lines(ids.drop_last(), facts, slug) + sys_fact_line(ids.last()@, facts, slug)
    }
}

pub open spec fn project_fact_lines(ids: Seq<String>, facts: Seq<ProjectFactIndexEntry>) -> Seq<char>
    decreases ids.len(),
{
    if ids.len() == 0 {
        Seq::empty()
    } else {
        project_fact_lines(ids.drop_last(), facts) + project_fact_line(ids.last()@, facts)
    }
}

pub open spec fn evidence_lines(ids: Seq<String>, es: Seq<Evidence>) -> Seq<char>
    decreases ids.len(),
{
    if ids.len() == 0 {
        Seq::empty()
    } else {
        evidence_lines(ids.drop_last(), es) + evidence_line(ids.last()@, es)
    }
}

/// The trace of a control: its body, the system facts, project facts and
/// evidence its matrix entry references, and its matrix state.
pub open spec fn trace_text(body: Seq<char>, slug: Seq<char>, e: MatrixEntry, facts: Seq<FactIndexEntry>, pfacts: Seq<ProjectFactIndexEntry>, es: Seq<Evidence>) -> Seq<char> {
    ("=== 控制正文 ===\n"@ + body + "\n"@) + ("=== 系统事实 ("@ + dec(e.facts@.len()) + ") ===\n"@ + sys_fact_lines(
        e.facts@,
        facts,
        slug,
    )) + ("=== 项目事实 ("@ + dec(e.project_facts@.len()) + ") ===\n"@ + project_fact_lines(e.project_facts@, pfacts))
        + ("=== 证据 ("@ + dec(e.evidence@.len()) + ") ===\n"@ + evidence_lines(e.evidence@, es)) + ("=== 矩阵状态 ===\n"@
        + "status="@ + status_text(e.status) + " owner="@ + or_dash(e.owner@, "-"@) + " gap="@ + or_dash(e.gap@, "(无)"@)
        + "\n"@)
}

/// A trace lists each kind of reference under a header that counts the
/// references the entry holds: `=== 系统事实 (n) ===` with n the entry's
/// system facts, then their lines; likewise for project facts and evidence.
#[verifier::spinoff_prover]
pub proof fn lemma_trace_headers_count_references(
    body: Seq<char>,
    slug: Seq<char>,
    e: MatrixEntry,
    facts: Seq<FactIndexEntry>,
    pfacts: Seq<ProjectFactIndexEntry>,
    es: Seq<Evidence>,
)
    ensures
        contains_seq(
            trace_text(body, slug, e, facts, pfacts, es),
            "=== 系统事实 ("@ + dec(e.facts@.len()) + ") ===\n"@ + sys_fact_lines(e.facts@, facts, slug),
        ),
        contains_seq(
            trace_text(body, slug, e, facts, pfacts, es),
            "=== 项目事实 ("@ + dec(e.project_facts@.len()) + ") ===\n"@ + project_fact_lines(e.project_facts@, pfacts),
        ),
        contains_seq(
            trace_text(body, slug, e, facts, pfacts, es),
            "=== 证据 ("@ + dec(e.evidence@.len()) + ") ===\n"@ + evidence_lines(e.evidence@, es),
        ),
        contains_seq(
            trace_text(body, slug, e, facts, pfacts, es),
            "=== 矩阵状态 ===\n"@ + "status="@ + status_text(e.status) + " owner="@ + or_dash(e.owner@, "-"@) + " gap="@
                + or_dash(e.gap@, "(无)"@) + "\n"@,
        ),
{
    let t = trace_text(body, slug, e, facts, pfacts, es);
    let a = "=== 控制正文 ===\n"@ + body + "\n"@;
    let s1 = "=== 系统事实 ("@ + dec(e.facts@.len()) + ") ===\n"@ + sys_fact_lines(e.facts@, facts, slug);
    let s2 = "=== 项目事实 ("@ + dec(e.project_facts@.len()) + ") ===\n"@ + project_fact_lines(e.project_facts@, pfacts);
    let s3 = "=== 证据 ("@ + dec(e.evidence@.len()) + ") ===\n"@ + evidence_lines(e.evidence@, es);
    let z = "=== 矩阵状态 ===\n"@ + "status="@ + status_text(e.status) + " owner="@ + or_dash(e.owner@, "-"@) + " gap="@
        + or_dash(e.gap@, "(无)"@) + "\n"@;
    lemma_contains_halves(a + s1 + s2 + s3, z);
    lemma_contains_halves(a + s1 + s2, s3);
    lemma_contains_halves(a + s1, s2);
    lemma_contains_halves(a, s1);
    lemma_contains_trans(t, a + s1 + s2 + s3, a + s1 + s2);
    lemma_contains_trans(t, a + s1 + s2, a + s1);
    lemma_contains_trans(t, a + s1, s1);
    lemma_contains_trans(t, a + s1 + s2, s2);
    lemma_contains_trans(t, a + s1 + s2 + s3, s3);
}

fn push_sys_facts(v: &mut Vec<char>, ids: &Vec<String>, index: &FactIndex, slug: &str)
    ensures
        final(v)@ == old(v)@ + sys_fact_lines(ids@, index.facts@, slug@),
{
    let ghost start = v@;
    let mut i: usize = 0;
    while i < ids.len()
        invariant
            i <= ids@.len(),
            v@ == start + sys_fact_lines(ids@.take(ix(i)), index.facts@, slug@),
        decreases ids.len() - i,
    {
        assert(ids@.take(i + 1).drop_last() == ids@.take(ix(i)));
        assert(ids@.take(i + 1).last() == ids@[ix(i)]);
        let ghost before = v@;
        match crate::system::fact::find_fact(index, ids[i].as_str()) {
            Some(p) => {
                let f = &index.facts[p];
                append_str(v, f.id.as_str());
                append_str(v, "  ");
                append_str(v, f.domain.as_str());
                append_str(v, "  ");
                append_str(v, f.title.as_str());
                append_str(v, "\n");
            },
            None => {
                append_str(v, ids[i].as_str());
                append_str(v, "  (系统 `");
                append_str(v, slug);
                append_str(v, "` 索引中缺失)\n");
            },
        }
        assert(v@ =~= before + sys_fact_line(ids@[ix(i)]@, index.facts@, slug@));
        i += 1;
    }
    assert(ids@.take(ids@.len() as int) == ids@);
}

fn push_project_facts(v: &mut Vec<char>, ids: &Vec<String>, index: &ProjectFactIndex)
    ensures
        final(v)@ == old(v)@ + project_fact_lines(ids@, index.facts@),
{
    let ghost start = v@;
    let mut i: usize = 0;
    while i < ids.len()
        invariant
            i <= ids@.len(),
            v@ == start + project_fact_lines(ids@.take(ix(i)), index.facts@),
        decreases ids.len() - i,
    {
        assert(ids@.take(i + 1).drop_last() == ids@.take(ix(i)));
        assert(ids@.take(i + 1).last() == ids@[ix(i)]);
        let ghost before = v@;
        match crate::project::fact::find_fact(index, ids[i].as_str()) {
            Some(p) => {
                let f = &index.facts[p];
                append_str(v, f.id.as_str());
                append_str(v, "  [");
                append_str(v, f.kind.as_str());
                append_str(v, "]  ");
                append_str(v, f.title.as_str());
                append_str(v, "\n");
            },
            None => {
                append_str(v, ids[i].as_str());
                append_str(v, "  (项目事实索引中缺失)\n");
            },
        }
        assert(v@ =~= before + project_fact_line(ids@[ix(i)]@, index.facts@));
        i += 1;
    }
    assert(ids@.take(ids@.len() as int) == ids@);
}

#[verifier::spinoff_prover]
fn push_evidence(v: &mut Vec<char>, ids: &Vec<String>, index: &EvidenceIndex)
    ensures
        final(v)@ == old(v)@ + evidence_lines(ids@, index.evidence@),
{
    let ghost start = v@;
    let mut i: usize = 0;
    while i < ids.len()
        invariant
            i <= ids@.len(),
            v@ == start + evidence_lines(ids@.take(ix(i)), index.evidence@),
        decreases ids.len() - i,
    {
        assert(ids@.take(i + 1).drop_last() == ids@.take(ix(i)));
        assert(ids@.take(i + 1).last() == ids@[ix(i)]);
        let ghost before = v@;
        match get_position(index, ids[i].as_str()) {
            Some(p) => {
                let e = &index.evidence[p];
                append_str(v, e.id.as_str());
                append_str(v, "  [");
                append_str(v, e.kind.as_str());
                append_str(v, "]  ");
                append_str(v, e.file.as_str());
                append_str(v, "  sha256=");
                let sv = crate::text::chars_of(e.sha256.as_str());
                let cut = if sv.len() <= 12 { sv.len() } else { 12 };
                let head = crate::text::slice_chars(&sv, 0, cut);
                assert(head@ == at_most(e.sha256@, 12));
                crate::text::append_chars(v, &head);
                append_str(v, "\n");
            },
            None => {
                append_str(v, ids[i].as_str());
                append_str(v, "  (索引中缺失)\n");
            },
        }
        assert(v@ =~= before + evidence_line(ids@[ix(i)]@, index.evidence@));
        i += 1;
    }
    assert(ids@.take(ids@.len() as int) == ids@);
}

/// The text of `matrix trace` for a matrix entry, given the control body and
/// the indexes it refers into.
#[verifier::spinoff_prover]
pub fn trace(control_body: &str, slug: &str, e: &MatrixEntry, facts: &FactIndex, project_facts: &ProjectFactIndex, evidence: &EvidenceIndex) -> (s: String)
    ensures
        s@ == trace_text(control_body@, slug@, *e, facts.facts@, project_facts.facts@, evidence.evidence@),
{
    let mut v: Vec<char> = Vec::new();
    append_str(&mut v, "=== 控制正文 ===\n");
    append_str(&mut v, control_body);
    append_str(&mut v, "\n");
    let ghost a = v@;
    assert(a =~= "=== 控制正文 ===\n"@ + control_body@ + "\n"@);
    append_str(&mut v, "=== 系统事实 (");
    append_dec(&mut v, e.facts.len());
    append_str(&mut v, ") ===\n");
    push_sys_facts(&mut v, &e.facts, facts, slug);
    let ghost b = v@;
    assert(b =~= a + ("=== 系统事实 ("@ + dec(e.facts@.len()) + ") ===\n"@ + sys_fact_lines(e.facts@, facts.facts@, slug@)));
    append_str(&mut v, "=== 项目事实 (");
    append_dec(&mut v, e.project_facts.len());
    append_str(&mut v, ") ===\n");
    push_project_facts(&mut v, &e.project_facts, project_facts);
    let ghost c = v@;
    assert(c =~= b + ("=== 项目事实 ("@ + dec(e.project_facts@.len()) + ") ===\n"@ + project_fact_lines(
        e.project_facts@,
        project_facts.facts@,
    )));
    append_str(&mut v, "=== 证据 (");
    append_dec(&mut v, e.evidence.len());
    append_str(&mut v, ") ===\n");
    push_evidence(&mut v, &e.evidence, evidence);
    let ghost d = v@;
    assert(d =~= c + ("=== 证据 ("@ + dec(e.evidence@.len()) + ") ===\n"@ + evidence_lines(e.evidence@, evidence.evidence@)));
    append_str(&mut v, "=== 矩阵状态 ===\n");
    append_str(&mut v, "status=");
    append_str(&mut v, e.status.as_str());
    append_str(&mut v, " owner=");
    append_or_dash(&mut v, &e.owner, "-");
    append_str(&mut v, " gap=");
    append_or_dash(&mut v, &e.gap, "(无)");
    append_str(&mut v, "\n");
    assert(v@ =~= d + ("=== 矩阵状态 ===\n"@ + "status="@ + status_text(e.status) + " owner="@ + or_dash(e.owner@, "-"@)
        + " gap="@ + or_dash(e.gap@, "(无)"@) + "\n"@));
    assert(v@ == trace_text(control_body@, slug@, *e, facts.facts@, project_facts.facts@, evidence.evidence@));
    string_of(&v)
}

} // verus!
