//! Shared domain model: frameworks, control identifiers, statuses, domains and
//! the provenance that ingested records carry.
//!
//! Every control is addressed by a `ControlId`, written `<framework>:<control_id>`,
//! so that references across projects and frameworks stay short.

use std::cmp::Ordering;
use vstd::prelude::*;

use crate::text::{
    blank, flip, is_blank, ix, lemma_lex_cmp_equal, lemma_lex_cmp_flip, lex_cmp, lex_compare,
    parse_unsigned, parse_unsigned_chars, split_chars, split_on,
    append_chars, append_str, chars_of, dec, dec_padded, find_char, find_char_in, lemma_find_char,
    owned, str_eq, string_of, string_slice, zero_pad,
};

verus! {

/// How sure the agent is of an extracted record. Low-confidence records are
/// only written after explicit confirmation.
#[derive(Debug, Clone, Copy, PartialEq, Eq, Structural)]
pub enum IngestConfidence {
    High,
    Medium,
    Low,
}

/// A calendar date (`year`-`month`-`day`).
#[derive(Debug, Clone, Copy, PartialEq, Eq, Structural)]
pub struct Date {
    pub year: i32,
    pub month: u32,
    pub day: u32,
}

/// `%Y-%m-%d`: four-digit years in 0..=9999, a signed year of at least four
/// digits otherwise; two-digit month and day.
pub open spec fn date_text(d: Date) -> Seq<char> {
    let y = if 0 <= d.year <= 9999 {
        zero_pad(dec(d.year as nat), 4)
    } else if d.year < 0 {
        seq!['-'] + zero_pad(dec((-d.year) as nat), 4)
    } else {
        seq!['+'] + zero_pad(dec(d.year as nat), 4)
    };
    y + seq!['-'] + zero_pad(dec(d.month as nat), 2) + seq!['-'] + zero_pad(dec(d.day as nat), 2)
}

impl Date {
    /// The date in `%Y-%m-%d` form.
    pub fn to_text(&self) -> (r: String)
        ensures
            r@ == date_text(*self),
    {
        let mut v: Vec<char> = Vec::new();
        if 0 <= self.year && self.year <= 9999 {
            let y = dec_padded(self.year as u64, 4);
            append_chars(&mut v, &y);
        } else if self.year < 0 {
            v.push('-');
            let magnitude: u64 = (-(self.year as i64)) as u64;
            let y = dec_padded(magnitude, 4);
            append_chars(&mut v, &y);
        } else {
            v.push('+');
            let y = dec_padded(self.year as u64, 4);
            append_chars(&mut v, &y);
        }
        v.push('-');
        let m = dec_padded(self.month as u64, 2);
        append_chars(&mut v, &m);
        v.push('-');
        let d = dec_padded(self.day as u64, 2);
        append_chars(&mut v, &d);
        string_of(&v)
    }
}

/// Where a structured record was found in the source material.
///
/// `kind` stays an open string so that new carriers need no protocol change.
#[derive(Debug, Clone, PartialEq, Eq)]
pub struct SourceCitation {
    pub kind: String,
    pub title: String,
    pub reference: String,
    pub locator: String,
    pub sha256: Option<String>,
    pub document_date: Option<Date>,
}

/// Provenance persisted with ingested controls, facts and assessments.
///
/// `external_key` gives a stable identity across repeated imports and
/// `record_sha256` tells "unchanged" apart from "updated at the source".
#[derive(Debug, Clone, PartialEq, Eq)]
pub struct IngestMetadata {
    pub external_key: String,
    pub record_sha256: String,
    pub source: SourceCitation,
    pub confidence: IngestConfidence,
}

fn clone_opt_string(o: &Option<String>) -> (r: Option<String>)
    ensures
        r == *o,
{
    match o {
        Some(s) => Some(s.clone()),
        None => None,
    }
}

impl SourceCitation {
    /// A copy of this citation.
    pub fn duplicate(&self) -> (r: SourceCitation)
        ensures
            r == *self,
    {
        SourceCitation {
            kind: self.kind.clone(),
            title: self.title.clone(),
            reference: self.reference.clone(),
            locator: self.locator.clone(),
            sha256: clone_opt_string(&self.sha256),
            document_date: self.document_date,
        }
    }
}

impl IngestMetadata {
    /// A copy of this provenance.
    pub fn duplicate(&self) -> (r: IngestMetadata)
        ensures
            r == *self,
    {
        IngestMetadata {
            external_key: self.external_key.clone(),
            record_sha256: self.record_sha256.clone(),
            source: self.source.duplicate(),
            confidence: self.confidence,
        }
    }
}

/// A compliance framework such as `dengbao-2.0`; the namespace of `ControlId`s.
#[derive(Debug, Clone, PartialEq, Eq, Hash)]
pub struct Framework(pub String);

impl Framework {
    pub fn dengbao_2_0() -> (f: Self)
        ensures
            f.0@ == "dengbao-2.0"@,
    {
        Framework(owned("dengbao-2.0"))
    }

    pub fn as_str(&self) -> (s: &str)
        ensures
            s@ == self.0@,
    {
        self.0.as_str()
    }

    /// The framework name as it is displayed.
    pub fn to_text(&self) -> (s: String)
        ensures
            s@ == self.0@,
    {
        self.0.clone()
    }
}

/// A globally unique control identifier `<framework>:<control_id>`.
#[derive(Debug, Clone, PartialEq, Eq, Hash)]
pub struct ControlId {
    pub framework: Framework,
    pub control_id: String,
}

impl View for ControlId {
    type V = (Seq<char>, Seq<char>);

    open spec fn view(&self) -> (Seq<char>, Seq<char>) {
        (self.framework.0@, self.control_id@)
    }
}

/// The text form `<framework>:<control_id>`.
pub open spec fn id_text(id: (Seq<char>, Seq<char>)) -> Seq<char> {
    id.0 + seq![':'] + id.1
}

/// Why a control identifier could not be read.
#[derive(Debug, Clone, Copy, PartialEq, Eq, Structural)]
pub enum ControlIdFault {
    /// No `:` between framework and control number.
    MissingSeparator,
    /// The framework or the control number is empty.
    EmptyPart,
}

/// Reading `<framework>:<control_id>`: split at the first `:`; both sides non-empty.
pub open spec fn parse_id(s: Seq<char>) -> Result<(Seq<char>, Seq<char>), ControlIdFault> {
    let i = find_char(s, ':');
    if i < 0 {
        Err(ControlIdFault::MissingSeparator)
    } else if i == 0 || i == s.len() - 1 {
        Err(ControlIdFault::EmptyPart)
    } else {
        Ok((s.take(i), s.skip(i + 1)))
    }
}

/// Errors of the shared model's parsers.
#[derive(Debug, Clone, PartialEq, Eq)]
pub enum ModelError {
    /// A control identifier that is not `<framework>:<control_id>`.
    BadControlId { input: String, fault: ControlIdFault },
    /// A status other than unassessed/met/partial/gap/na.
    UnknownStatus(String),
    /// A blank control domain.
    EmptyDomain,
    /// A project fact kind other than 整改/例外/决策/发现/备注.
    UnknownFactKind(String),
}

impl ControlId {
    pub fn new(framework: &str, control_id: &str) -> (id: Self)
        ensures
            id@ == (framework@, control_id@),
    {
        ControlId { framework: Framework(owned(framework)), control_id: owned(control_id) }
    }

    /// `<framework>:<control_id>`.
    pub fn to_text(&self) -> (s: String)
        ensures
            s@ == id_text(self@),
    {
        let mut v = chars_of(self.framework.0.as_str());
        v.push(':');
        append_str(&mut v, self.control_id.as_str());
        string_of(&v)
    }

    /// Reads `<framework>:<control_id>`, splitting at the first `:`.
    pub fn parse(s: &str) -> (r: Result<Self, ModelError>)
        ensures
            r matches Ok(id) ==> parse_id(s@) == Ok::<(Seq<char>, Seq<char>), ControlIdFault>(id@),
            r matches Err(e) ==> (e matches ModelError::BadControlId { input, fault } && input@ == s@
                && parse_id(s@) == Err::<(Seq<char>, Seq<char>), ControlIdFault>(fault)),
    {
        let v = chars_of(s);
        match find_char_in(&v, ':') {
            None => Err(ModelError::BadControlId { input: owned(s), fault: ControlIdFault::MissingSeparator }),
            Some(i) => {
                if i == 0 || i == v.len() - 1 {
                    Err(ModelError::BadControlId { input: owned(s), fault: ControlIdFault::EmptyPart })
                } else {
                    let f = string_slice(&v, 0, i);
                    let c = string_slice(&v, i + 1, v.len());
                    assert(v@.subrange(0, i as int) == v@.take(i as int));
                    assert(v@.subrange(i + 1, v@.len() as int) == v@.skip(i + 1));
                    Ok(ControlId { framework: Framework(f), control_id: c })
                }
            }
        }
    }

    /// A copy of this identifier.
    pub fn duplicate(&self) -> (r: ControlId)
        ensures
            r == *self,
            r@ == self@,
    {
        ControlId { framework: Framework(self.framework.0.clone()), control_id: self.control_id.clone() }
    }

    /// Whether two identifiers name the same control.
    pub fn same(&self, other: &ControlId) -> (b: bool)
        ensures
            b == (self@ == other@),
    {
        self.framework.0 == other.framework.0 && self.control_id == other.control_id
    }
}

/// Writing an identifier and reading it back gives the same identifier,
/// provided the framework is non-empty and has no `:` and the control number
/// is non-empty.
pub proof fn lemma_control_id_text_roundtrip(framework: Seq<char>, control_id: Seq<char>)
    requires
        framework.len() > 0,
        !framework.contains(':'),
        control_id.len() > 0,
    ensures
        parse_id(id_text((framework, control_id))) == Ok::<(Seq<char>, Seq<char>), ControlIdFault>((framework, control_id)),
{
    let s = id_text((framework, control_id));
    lemma_find_char(s, ':');
    let n = framework.len() as int;
    assert(s[n] == ':');
    assert forall|j: int| 0 <= j < n implies s[j] != ':' by {
        assert(s[j] == framework[j]);
    }
    let i = find_char(s, ':');
    assert(i == n);
    assert(s.take(n) == framework);
    assert(s.skip(n + 1) == control_id);
}

/// The compliance status of a control in a project matrix.
#[derive(Debug, Clone, Copy, PartialEq, Eq, Structural)]
pub enum ControlStatus {
    /// Not yet assessed.
    Unassessed,
    /// Met.
    Met,
    /// Partially met.
    Partial,
    /// Gap.
    Gap,
    /// Not applicable.
    Na,
}

/// The persisted name of a status.
pub open spec fn status_text(s: ControlStatus) -> Seq<char> {
    match s {
        ControlStatus::Unassessed => "unassessed"@,
        ControlStatus::Met => "met"@,
        ControlStatus::Partial => "partial"@,
        ControlStatus::Gap => "gap"@,
        ControlStatus::Na => "na"@,
    }
}

/// Reading a status name.
pub open spec fn status_from_text(s: Seq<char>) -> Option<ControlStatus> {
    if s == "unassessed"@ {
        Some(ControlStatus::Unassessed)
    } else if s == "met"@ {
        Some(ControlStatus::Met)
    } else if s == "partial"@ {
        Some(ControlStatus::Partial)
    } else if s == "gap"@ {
        Some(ControlStatus::Gap)
    } else if s == "na"@ {
        Some(ControlStatus::Na)
    } else {
        None
    }
}

impl ControlStatus {
    pub fn as_str(&self) -> (s: &'static str)
        ensures
            s@ == status_text(*self),
    {
        match self {
            ControlStatus::Unassessed => "unassessed",
            ControlStatus::Met => "met",
            ControlStatus::Partial => "partial",
            ControlStatus::Gap => "gap",
            ControlStatus::Na => "na",
        }
    }

    /// Reads `unassessed`, `met`, `partial`, `gap` or `na`.
    pub fn parse(s: &str) -> (r: Result<ControlStatus, ModelError>)
        ensures
            r matches Ok(st) ==> status_from_text(s@) == Some(st),
            r matches Err(e) ==> status_from_text(s@) is None && (e matches ModelError::UnknownStatus(t)
                && t@ == s@),
    {
        if str_eq(s, "unassessed") {
            Ok(ControlStatus::Unassessed)
        } else if str_eq(s, "met") {
            Ok(ControlStatus::Met)
        } else if str_eq(s, "partial") {
            Ok(ControlStatus::Partial)
        } else if str_eq(s, "gap") {
            Ok(ControlStatus::Gap)
        } else if str_eq(s, "na") {
            Ok(ControlStatus::Na)
        } else {
            Err(ModelError::UnknownStatus(owned(s)))
        }
    }
}


/// Reading a status name gives back the status that was written.
pub proof fn lemma_status_text_roundtrip(st: ControlStatus)
    ensures
        status_from_text(status_text(st)) == Some(st),
{
    reveal_strlit("unassessed");
    reveal_strlit("met");
    reveal_strlit("partial");
    reveal_strlit("gap");
    reveal_strlit("na");
    assert("unassessed"@[0] != "met"@[0] && "unassessed"@[0] != "partial"@[0] && "unassessed"@[0]
        != "gap"@[0] && "unassessed"@[0] != "na"@[0]);
    assert("met"@[0] != "partial"@[0] && "met"@[0] != "gap"@[0] && "met"@[0] != "na"@[0]);
    assert("partial"@[0] != "gap"@[0] && "partial"@[0] != "na"@[0]);
    assert("gap"@[0] != "na"@[0]);
    assert("gap"@ != "na"@);
}

/// A control domain as the framework names it (等保 "技术"/"管理", ISO
/// "Organizational controls", ...). Never blank.
#[derive(Debug, Clone, PartialEq, Eq, Hash)]
pub struct Domain(String);

impl View for Domain {
    type V = Seq<char>;

    closed spec fn view(&self) -> Seq<char> {
        self.0@
    }
}

impl Domain {
    /// A copy of this domain.
    pub fn duplicate(&self) -> (d: Domain)
        ensures
            d@ == self@,
    {
        Domain(self.0.clone())
    }

    /// A domain, refused when blank.
    pub fn new(value: &str) -> (r: Result<Domain, ModelError>)
        ensures
            r matches Ok(d) ==> d@ == value@ && !is_blank(value@),
            r is Err ==> is_blank(value@) && r == Err::<Domain, ModelError>(ModelError::EmptyDomain),
    {
        if blank(value) {
            Err(ModelError::EmptyDomain)
        } else {
            Ok(Domain(owned(value)))
        }
    }

    /// A domain from a text known not to be blank.
    pub fn from_text(value: &str) -> (d: Domain)
        requires
            !is_blank(value@),
        ensures
            d@ == value@,
    {
        Domain(owned(value))
    }

    /// Reads a domain; the same as `new`.
    pub fn parse(value: &str) -> (r: Result<Domain, ModelError>)
        ensures
            r matches Ok(d) ==> d@ == value@ && !is_blank(value@),
            r is Err ==> is_blank(value@) && r == Err::<Domain, ModelError>(ModelError::EmptyDomain),
    {
        Domain::new(value)
    }

    pub fn technical() -> (d: Domain)
        ensures
            d@ == "技术"@,
    {
        Domain(owned("技术"))
    }

    pub fn management() -> (d: Domain)
        ensures
            d@ == "管理"@,
    {
        Domain(owned("管理"))
    }

    pub fn as_str(&self) -> (s: &str)
        ensures
            s@ == self@,
    {
        self.0.as_str()
    }

    /// Whether two domains are the same.
    pub fn same(&self, other: &Domain) -> (b: bool)
        ensures
            b == (self@ == other@),
    {
        self.0 == other.0
    }
}

/// The kinds of project-specific facts.
#[derive(Debug, Clone, Copy, PartialEq, Eq, Hash, Structural)]
pub enum ProjectFactKind {
    /// 整改
    Remediation,
    /// 例外
    Exception,
    /// 决策
    Decision,
    /// 发现
    Finding,
    /// 备注
    Note,
}

/// The persisted name of a project fact kind.
pub open spec fn fact_kind_text(k: ProjectFactKind) -> Seq<char> {
    match k {
        ProjectFactKind::Remediation => "整改"@,
        ProjectFactKind::Exception => "例外"@,
        ProjectFactKind::Decision => "决策"@,
        ProjectFactKind::Finding => "发现"@,
        ProjectFactKind::Note => "备注"@,
    }
}

/// Reading a project fact kind.
pub open spec fn fact_kind_from_text(s: Seq<char>) -> Option<ProjectFactKind> {
    if s == "整改"@ {
        Some(ProjectFactKind::Remediation)
    } else if s == "例外"@ {
        Some(ProjectFactKind::Exception)
    } else if s == "决策"@ {
        Some(ProjectFactKind::Decision)
    } else if s == "发现"@ {
        Some(ProjectFactKind::Finding)
    } else if s == "备注"@ {
        Some(ProjectFactKind::Note)
    } else {
        None
    }
}

impl ProjectFactKind {
    pub fn as_str(&self) -> (s: &'static str)
        ensures
            s@ == fact_kind_text(*self),
    {
        match self {
            ProjectFactKind::Remediation => "整改",
            ProjectFactKind::Exception => "例外",
            ProjectFactKind::Decision => "决策",
            ProjectFactKind::Finding => "发现",
            ProjectFactKind::Note => "备注",
        }
    }

    /// Reads 整改, 例外, 决策, 发现 or 备注.
    pub fn parse(s: &str) -> (r: Result<ProjectFactKind, ModelError>)
        ensures
            r matches Ok(k) ==> fact_kind_from_text(s@) == Some(k),
            r matches Err(e) ==> fact_kind_from_text(s@) is None && (e matches ModelError::UnknownFactKind(t)
                && t@ == s@),
    {
        if str_eq(s, "整改") {
            Ok(ProjectFactKind::Remediation)
        } else if str_eq(s, "例外") {
            Ok(ProjectFactKind::Exception)
        } else if str_eq(s, "决策") {
            Ok(ProjectFactKind::Decision)
        } else if str_eq(s, "发现") {
            Ok(ProjectFactKind::Finding)
        } else if str_eq(s, "备注") {
            Ok(ProjectFactKind::Note)
        } else {
            Err(ModelError::UnknownFactKind(owned(s)))
        }
    }
}

/// Reading a fact kind's name gives back the kind that was written.
pub proof fn lemma_fact_kind_text_roundtrip(k: ProjectFactKind)
    ensures
        fact_kind_from_text(fact_kind_text(k)) == Some(k),
{
    reveal_strlit("整改");
    reveal_strlit("例外");
    reveal_strlit("决策");
    reveal_strlit("发现");
    reveal_strlit("备注");
    assert("整改"@[0] != "例外"@[0] && "整改"@[0] != "决策"@[0] && "整改"@[0] != "发现"@[0]
        && "整改"@[0] != "备注"@[0]);
    assert("例外"@[0] != "决策"@[0] && "例外"@[0] != "发现"@[0] && "例外"@[0] != "备注"@[0]);
    assert("决策"@[0] != "发现"@[0] && "决策"@[0] != "备注"@[0]);
    assert("发现"@[0] != "备注"@[0]);
}

/// `str::parse::<u64>`.
pub open spec fn parse_u64(s: Seq<char>) -> Option<nat> {
    parse_unsigned(s, u64::MAX as nat)
}

/// A machine number as a mathematical one.
pub open spec fn nat_of(x: u64) -> nat {
    x as nat
}

fn parse_u64_chars(v: &Vec<char>) -> (r: Option<u64>)
    ensures
        r matches Some(x) ==> parse_u64(v@) == Some(nat_of(x)),
        r is None ==> parse_u64(v@) is None,
{
    parse_unsigned_chars(v, u64::MAX)
}

/// Order of two numbers.
pub open spec fn nat_cmp(a: nat, b: nat) -> Ordering {
    if a < b {
        Ordering::Less
    } else if a > b {
        Ordering::Greater
    } else {
        Ordering::Equal
    }
}

/// Order of one dot-separated segment: numerically when both read as `u64`,
/// as text otherwise.
pub open spec fn segment_cmp(x: Seq<char>, y: Seq<char>) -> Ordering {
    match (parse_u64(x), parse_u64(y)) {
        (Some(a), Some(b)) => nat_cmp(a, b),
        _ => lex_cmp(x, y),
    }
}

/// Order of two segment lists: the first unequal segment decides; a proper
/// prefix comes first.
pub open spec fn segments_cmp(xs: Seq<Seq<char>>, ys: Seq<Seq<char>>) -> Ordering
    decreases xs.len(),
{
    if xs.len() == 0 {
        if ys.len() == 0 {
            Ordering::Equal
        } else {
            Ordering::Less
        }
    } else if ys.len() == 0 {
        Ordering::Greater
    } else {
        let c = segment_cmp(xs[0], ys[0]);
        if c == Ordering::Equal {
            segments_cmp(xs.drop_first(), ys.drop_first())
        } else {
            c
        }
    }
}

/// Natural order of control numbers: `8.1.1.2` before `8.1.1.10`.
pub open spec fn natural_cmp(a: Seq<char>, b: Seq<char>) -> Ordering {
    segments_cmp(split_on(a, '.'), split_on(b, '.'))
}

fn segment_compare(x: &Vec<char>, y: &Vec<char>) -> (o: Ordering)
    ensures
        o == segment_cmp(x@, y@),
{
    match (parse_u64_chars(x), parse_u64_chars(y)) {
        (Some(a), Some(b)) => {
            if a < b {
                Ordering::Less
            } else if a > b {
                Ordering::Greater
            } else {
                Ordering::Equal
            }
        },
        _ => lex_compare(x, y),
    }
}

/// Orders control numbers by their dot-separated segments, numerically where
/// both segments are numbers, so that `8.1.1.2` sorts before `8.1.1.10`.
pub fn natural_control_cmp(a: &str, b: &str) -> (o: Ordering)
    ensures
        o == natural_cmp(a@, b@),
{
    let av = chars_of(a);
    let bv = chars_of(b);
    let xs = split_chars(&av, '.');
    let ys = split_chars(&bv, '.');
    let ghost sx = split_on(a@, '.');
    let ghost sy = split_on(b@, '.');
    let mut i: usize = 0;
    assert(sx.skip(0) == sx && sy.skip(0) == sy);
    while i < xs.len() && i < ys.len()
        invariant
            sx == split_on(a@, '.'),
            sy == split_on(b@, '.'),
            xs@.len() == sx.len(),
            ys@.len() == sy.len(),
            forall|j: int| 0 <= j < xs@.len() ==> #[trigger] xs@[j]@ == sx[j],
            forall|j: int| 0 <= j < ys@.len() ==> #[trigger] ys@[j]@ == sy[j],
            i <= xs@.len(),
            i <= ys@.len(),
            segments_cmp(sx, sy) == segments_cmp(sx.skip(ix(i)), sy.skip(ix(i))),
        decreases xs.len() - i,
    {
        let c = segment_compare(&xs[i], &ys[i]);
        assert(sx.skip(ix(i))[0] == sx[ix(i)]);
        assert(sy.skip(ix(i))[0] == sy[ix(i)]);
        match c {
            Ordering::Equal => {},
            _ => {
                assert(sx.skip(ix(i)).len() > 0 && sy.skip(ix(i)).len() > 0);
                assert(c == segment_cmp(sx.skip(ix(i))[0], sy.skip(ix(i))[0]));
                assert(segments_cmp(sx.skip(ix(i)), sy.skip(ix(i))) == c);
                return c;
            },
        }
        assert(sx.skip(ix(i)).drop_first() == sx.skip(i + 1));
        assert(sy.skip(ix(i)).drop_first() == sy.skip(i + 1));
        i += 1;
    }
    if i < xs.len() {
        Ordering::Greater
    } else if i < ys.len() {
        Ordering::Less
    } else {
        Ordering::Equal
    }
}

proof fn lemma_segment_cmp_refl(x: Seq<char>)
    ensures
        segment_cmp(x, x) == Ordering::Equal,
{
    lemma_lex_cmp_equal(x, x);
}

proof fn lemma_segment_cmp_flip(x: Seq<char>, y: Seq<char>)
    ensures
        segment_cmp(y, x) == flip(segment_cmp(x, y)),
{
    lemma_lex_cmp_flip(x, y);
}

proof fn lemma_segments_cmp_refl(xs: Seq<Seq<char>>)
    ensures
        segments_cmp(xs, xs) == Ordering::Equal,
    decreases xs.len(),
{
    if xs.len() > 0 {
        lemma_segment_cmp_refl(xs[0]);
        lemma_segments_cmp_refl(xs.drop_first());
    }
}

proof fn lemma_segments_cmp_flip(xs: Seq<Seq<char>>, ys: Seq<Seq<char>>)
    ensures
        segments_cmp(ys, xs) == flip(segments_cmp(xs, ys)),
    decreases xs.len(),
{
    if xs.len() > 0 && ys.len() > 0 {
        lemma_segment_cmp_flip(xs[0], ys[0]);
        lemma_segments_cmp_flip(xs.drop_first(), ys.drop_first());
    }
}

/// Every control number is equal to itself in the natural order.
pub proof fn lemma_natural_cmp_reflexive(a: Seq<char>)
    ensures
        natural_cmp(a, a) == Ordering::Equal,
{
    lemma_segments_cmp_refl(split_on(a, '.'));
}

/// Swapping the operands of the natural order reverses its verdict.
pub proof fn lemma_natural_cmp_antisymmetric(a: Seq<char>, b: Seq<char>)
    ensures
        natural_cmp(b, a) == flip(natural_cmp(a, b)),
{
    lemma_segments_cmp_flip(split_on(a, '.'), split_on(b, '.'));
}

/// Order of control identifiers: by framework name as text, then by the
/// natural order of control numbers.
pub open spec fn control_order(a: (Seq<char>, Seq<char>), b: (Seq<char>, Seq<char>)) -> Ordering {
    let f = lex_cmp(a.0, b.0);
    if f == Ordering::Equal {
        natural_cmp(a.1, b.1)
    } else {
        f
    }
}

impl ControlId {
    /// The order of identifiers used for matrices and indexes.
    pub fn compare(&self, other: &ControlId) -> (o: Ordering)
        ensures
            o == control_order(self@, other@),
    {
        let a = chars_of(self.framework.0.as_str());
        let b = chars_of(other.framework.0.as_str());
        let f = lex_compare(&a, &b);
        match f {
            Ordering::Equal => natural_control_cmp(self.control_id.as_str(), other.control_id.as_str()),
            _ => f,
        }
    }
}

/// Swapping the operands of the identifier order reverses its verdict.
pub proof fn lemma_control_order_antisymmetric(a: (Seq<char>, Seq<char>), b: (Seq<char>, Seq<char>))
    ensures
        control_order(b, a) == flip(control_order(a, b)),
{
    lemma_lex_cmp_flip(a.0, b.0);
    lemma_natural_cmp_antisymmetric(a.1, b.1);
}

/// Every identifier is equal to itself in the identifier order.
pub proof fn lemma_control_order_reflexive(a: (Seq<char>, Seq<char>))
    ensures
        control_order(a, a) == Ordering::Equal,
{
    lemma_lex_cmp_equal(a.0, a.0);
    lemma_natural_cmp_reflexive(a.1);
}

proof fn lemma_segment_cmp_equal_trans(x: Seq<char>, y: Seq<char>, z: Seq<char>)
    requires
        segment_cmp(x, y) == Ordering::Equal,
        segment_cmp(y, z) == Ordering::Equal,
    ensures
        segment_cmp(x, z) == Ordering::Equal,
{
    lemma_lex_cmp_equal(x, y);
    lemma_lex_cmp_equal(y, z);
    lemma_lex_cmp_equal(x, z);
    if parse_u64(x) is Some && parse_u64(y) is Some {
        if parse_u64(z) is None {
            assert(y == z);
        }
    } else {
        assert(x == y);
        assert(parse_u64(y) is None || parse_u64(x) is None);
        if parse_u64(z) is Some && parse_u64(y) is Some {
            assert(parse_u64(x) is None);
        }
        assert(y == z);
    }
}

proof fn lemma_segments_cmp_equal_trans(xs: Seq<Seq<char>>, ys: Seq<Seq<char>>, zs: Seq<Seq<char>>)
    requires
        segments_cmp(xs, ys) == Ordering::Equal,
        segments_cmp(ys, zs) == Ordering::Equal,
    ensures
        segments_cmp(xs, zs) == Ordering::Equal,
    decreases xs.len(),
{
    if xs.len() > 0 && ys.len() > 0 && zs.len() > 0 {
        lemma_segment_cmp_equal_trans(xs[0], ys[0], zs[0]);
        lemma_segments_cmp_equal_trans(xs.drop_first(), ys.drop_first(), zs.drop_first());
    }
}

/// Identifiers that the identifier order deems equal to a common one are
/// equal to each other.
pub proof fn lemma_control_order_equal_trans(a: (Seq<char>, Seq<char>), b: (Seq<char>, Seq<char>), c: (Seq<char>, Seq<char>))
    requires
        control_order(a, b) == Ordering::Equal,
        control_order(b, c) == Ordering::Equal,
    ensures
        control_order(a, c) == Ordering::Equal,
{
    lemma_lex_cmp_equal(a.0, b.0);
    lemma_lex_cmp_equal(b.0, c.0);
    lemma_lex_cmp_equal(a.0, c.0);
    lemma_segments_cmp_equal_trans(split_on(a.1, '.'), split_on(b.1, '.'), split_on(c.1, '.'));
}

/// A copy of a list of identifiers.
pub fn clone_ids(v: &Vec<ControlId>) -> (r: Vec<ControlId>)
    ensures
        r@ == v@,
{
    let mut r: Vec<ControlId> = Vec::new();
    let mut i: usize = 0;
    while i < v.len()
        invariant
            i <= v.len(),
            r@ == v@.take(i as int),
        decreases v.len() - i,
    {
        r.push(v[i].duplicate());
        assert(v@.take(i + 1) == v@.take(i as int).push(v@[i as int]));
        i += 1;
    }
    assert(v@.take(v.len() as int) == v@);
    r
}

/// A copy of an optional identifier.
pub fn clone_opt_id(o: &Option<ControlId>) -> (r: Option<ControlId>)
    ensures
        r == *o,
{
    match o {
        Some(c) => Some(c.duplicate()),
        None => None,
    }
}

} // verus!
