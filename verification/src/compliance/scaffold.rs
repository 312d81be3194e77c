//! Control stubs from a built-in structure table: a frontmatter with id,
//! short name and domain, and a body template to be filled in by hand.

use vstd::prelude::*;

use crate::compliance::control::{ControlFrontmatter, ExcerptStatus};
use crate::model::{ControlId, Date, Domain, Framework, IngestMetadata, ModelError};
use crate::paths::path_join;
use crate::text::{append_str, chars_of, has_prefix, is_blank, owned, starts_with, str_eq, string_of};

verus! {

/// The structure table of a framework: its domains, categories and points.
#[derive(Debug, Clone)]
pub struct FrameworkStructure {
    pub framework: String,
    pub level: u8,
    pub domains: Vec<DomainStructure>,
}

#[derive(Debug, Clone)]
pub struct DomainStructure {
    pub key: String,
    pub categories: Vec<CategoryStructure>,
}

#[derive(Debug, Clone)]
pub struct CategoryStructure {
    /// Every control id of the category starts with `<prefix>.`.
    pub prefix: String,
    pub name: String,
    pub points: Vec<PointStructure>,
}

#[derive(Debug, Clone)]
pub struct PointStructure {
    pub id: String,
    pub name: String,
}

/// Why stubs cannot be made.
#[derive(Debug, Clone)]
pub enum ScaffoldError {
    /// Only `dengbao-2.0` has a built-in structure table.
    UnknownFramework(String),
    /// A blank domain key.
    BadDomain { key: String, error: ModelError },
    /// A control id outside its category's prefix.
    PrefixMismatch { control_id: String, prefix: String },
    /// A control id listed twice.
    DuplicateId(String),
}

/// Only `dengbao-2.0` has a built-in structure table.
pub fn check_framework(framework: &str) -> (r: Result<(), ScaffoldError>)
    ensures
        r is Ok <==> framework@ == "dengbao-2.0"@,
        r matches Err(ScaffoldError::UnknownFramework(f)) ==> f@ == framework@,
        r is Err ==> r matches Err(ScaffoldError::UnknownFramework(_)),
{
    if str_eq(framework, "dengbao-2.0") {
        Ok(())
    } else {
        Err(ScaffoldError::UnknownFramework(owned(framework)))
    }
}

/// The body template of a stub: three fixed sections asking for excerpts.
pub open spec fn stub_body(point: Seq<char>) -> Seq<char> {
    "# "@ + point + "\n\n## 要求摘要\n\n(待摘录:用自己的话概述该控制点的要求,不复录标准原文)\n\n## 实施指引\n\n(待摘录)\n\n## 常见缺陷\n\n(待摘录)\n"@
}

/// The body template of a stub.
pub fn default_body(point: &str) -> (s: String)
    ensures
        s@ == stub_body(point@),
{
    let mut v = chars_of("# ");
    append_str(&mut v, point);
    append_str(
        &mut v,
        "\n\n## 要求摘要\n\n(待摘录:用自己的话概述该控制点的要求,不复录标准原文)\n\n## 实施指引\n\n(待摘录)\n\n## 常见缺陷\n\n(待摘录)\n",
    );
    string_of(&v)
}

/// `PathBuf::push`: an absolute path replaces the base, a relative one is
/// appended with a separator.
pub open spec fn push_path(base: Seq<char>, rel: Seq<char>) -> Seq<char> {
    if rel.len() > 0 && rel[0] == '/' {
        rel
    } else {
        path_join(base, rel)
    }
}

fn push_path_exec(base: &str, rel: &str) -> (r: String)
    ensures
        r@ == push_path(base@, rel@),
{
    let v = chars_of(rel);
    if v.len() > 0 && v[0] == '/' {
        owned(rel)
    } else {
        crate::paths::join(base, rel)
    }
}

/// One step of reading a structure table: entering a domain, or a point
/// (domain key, category prefix, category name, control id, short name).
pub enum Step {
    Domain(Seq<char>),
    Point(Seq<char>, Seq<char>, Seq<char>, Seq<char>, Seq<char>),
}

pub open spec fn point_steps(key: Seq<char>, c: CategoryStructure) -> Seq<Step> {
    Seq::new(c.points@.len(), |i: int| Step::Point(key, c.prefix@, c.name@, c.points@[i].id@, c.points@[i].name@))
}

pub open spec fn category_steps(key: Seq<char>, cs: Seq<CategoryStructure>) -> Seq<Step>
    decreases cs.len(),
{
    if cs.len() == 0 {
        Seq::empty()
    } else {
        category_steps(key, cs.drop_last()) + point_steps(key, cs.last())
    }
}

pub open spec fn domain_steps(d: DomainStructure) -> Seq<Step> {
    seq![Step::Domain(d.key@)] + category_steps(d.key@, d.categories@)
}

/// The steps of a structure table, in reading order.
pub open spec fn steps(ds: Seq<DomainStructure>) -> Seq<Step>
    decreases ds.len(),
{
    if ds.len() == 0 {
        Seq::empty()
    } else {
        steps(ds.drop_last()) + domain_steps(ds.last())
    }
}

/// The kinds of faults of a structure table.
pub enum StepFault {
    BadDomain,
    PrefixMismatch,
    DuplicateId,
}

/// The control ids of the point steps, in order.
pub open spec fn point_ids(ss: Seq<Step>) -> Seq<Seq<char>>
    decreases ss.len(),
{
    if ss.len() == 0 {
        Seq::empty()
    } else {
        point_ids(ss.drop_last()) + match ss.last() {
            Step::Point(_, _, _, id, _) => seq![id],
            _ => Seq::empty(),
        }
    }
}

/// Whether an earlier step is a point with this id.
pub open spec fn id_seen(prev: Seq<Step>, id: Seq<char>) -> bool {
    point_ids(prev).contains(id)
}

/// The fault of one step after the steps before it.
pub open spec fn step_fault(s: Step, prev: Seq<Step>) -> Option<StepFault> {
    match s {
        Step::Domain(key) => if is_blank(key) {
            Some(StepFault::BadDomain)
        } else {
            None
        },
        Step::Point(_, prefix, _, id, _) => if !has_prefix(id, prefix + "."@) {
            Some(StepFault::PrefixMismatch)
        } else if id_seen(prev, id) {
            Some(StepFault::DuplicateId)
        } else {
            None
        },
    }
}

/// The first faulty step, with its position.
pub open spec fn first_step_fault(ss: Seq<Step>) -> Option<(int, StepFault)>
    decreases ss.len(),
{
    if ss.len() == 0 {
        None
    } else {
        match first_step_fault(ss.drop_last()) {
            Some(x) => Some(x),
            None => match step_fault(ss.last(), ss.drop_last()) {
                Some(f) => Some((ss.len() - 1, f)),
                None => None,
            },
        }
    }
}

/// The point steps only, in order.
pub open spec fn points_of(ss: Seq<Step>) -> Seq<Step>
    decreases ss.len(),
{
    if ss.len() == 0 {
        Seq::empty()
    } else {
        points_of(ss.drop_last()) + if ss.last() is Point {
            seq![ss.last()]
        } else {
            Seq::empty()
        }
    }
}

/// A stub to write: the path relative to the framework directory, the
/// frontmatter and the body.
#[derive(Debug, Clone)]
pub struct ControlStub {
    pub relative_path: String,
    pub frontmatter: ControlFrontmatter,
    pub body: String,
}

/// The stub of a point: `<domain>/<category>/<id>.md`, an empty excerpt at
/// the table's level, with the body template.
pub open spec fn stub_of(s: ControlStub, p: Step, framework: Seq<char>, level: u8) -> bool {
    match p {
        Step::Point(key, _, category, id, name) => {
            let fm = s.frontmatter;
            &&& s.relative_path@ == push_path(push_path(key, category), id + ".md"@)
            &&& fm.id@ == (framework, id)
            &&& fm.framework.0@ == framework
            &&& fm.domain@ == key
            &&& fm.category@ == category
            &&& fm.control_id@ == id
            &&& fm.title@ == name
            &&& fm.levels@ == seq![level]
            &&& fm.tags@.len() == 0
            &&& fm.mappings@.len() == 0
            &&& fm.expected_evidence@.len() == 0
            &&& fm.excerpt_status == ExcerptStatus::Empty
            &&& fm.last_reviewed is None
            &&& fm.ingest is None
            &&& s.body@ == stub_body(name)
        },
        _ => false,
    }
}

/// The error reported for a faulty step.
pub open spec fn error_of(e: ScaffoldError, s: Step, f: StepFault) -> bool {
    match (s, f) {
        (Step::Domain(key), StepFault::BadDomain) => e matches ScaffoldError::BadDomain { key: k, .. } && k@ == key,
        (Step::Point(_, prefix, _, id, _), StepFault::PrefixMismatch) => e matches ScaffoldError::PrefixMismatch {
            control_id,
            prefix: p,
        } && control_id@ == id && p@ == prefix,
        (Step::Point(_, _, _, id, _), StepFault::DuplicateId) => e matches ScaffoldError::DuplicateId(x) && x@ == id,
        _ => false,
    }
}

/// The stubs made so far match the points read so far, no fault was met,
/// and `seen` holds the ids read so far.
pub open spec fn state_ok(stubs: Seq<ControlStub>, seen: Seq<String>, done: Seq<Step>, framework: Seq<char>, level: u8) -> bool {
    &&& first_step_fault(done) is None
    &&& crate::text::texts(seen) == point_ids(done)
    &&& stubs.len() == points_of(done).len()
    &&& forall|i: int| 0 <= i < stubs.len() ==> stub_of(#[trigger] stubs[i], points_of(done)[i], framework, level)
}

/// What a run of steps leaves: an error for its first fault, or a good state.
pub open spec fn outcome(r: Result<(), ScaffoldError>, stubs: Seq<ControlStub>, seen: Seq<String>, done: Seq<Step>, framework: Seq<char>, level: u8) -> bool {
    match first_step_fault(done) {
        Some((k, f)) => r matches Err(e) && error_of(e, done[k], f),
        None => r is Ok && state_ok(stubs, seen, done, framework, level),
    }
}

proof fn lemma_fault_extends(done: Seq<Step>, more: Seq<Step>)
    requires
        first_step_fault(done) is Some,
    ensures
        first_step_fault(done + more) == first_step_fault(done),
        first_step_fault(done) matches Some((k, _)) ==> 0 <= k < done.len() && (done + more)[k] == done[k],
    decreases more.len(),
{
    lemma_fault_in_range(done);
    if more.len() > 0 {
        lemma_fault_extends(done, more.drop_last());
        assert((done + more).drop_last() == done + more.drop_last());
    } else {
        assert(done + more == done);
    }
}

proof fn lemma_fault_in_range(ss: Seq<Step>)
    ensures
        first_step_fault(ss) matches Some((k, _)) ==> 0 <= k < ss.len(),
    decreases ss.len(),
{
    if ss.len() > 0 {
        lemma_fault_in_range(ss.drop_last());
    }
}

fn make_stub(framework: &str, level: u8, key: &str, domain: &Domain, category: &str, id: &str, name: &str) -> (s: ControlStub)
    requires
        domain@ == key@,
    ensures
        stub_of(s, Step::Point(key@, Seq::empty(), category@, id@, name@), framework@, level),
{
    let dir = push_path_exec(key, category);
    let mut file = chars_of(id);
    append_str(&mut file, ".md");
    let file = string_of(&file);
    let rel = push_path_exec(dir.as_str(), file.as_str());
    let mut levels: Vec<u8> = Vec::new();
    levels.push(level);
    assert(levels@ =~= seq![level]);
    let fm = ControlFrontmatter {
        id: ControlId::new(framework, id),
        framework: Framework(owned(framework)),
        domain: domain.duplicate(),
        category: owned(category),
        control_id: owned(id),
        title: owned(name),
        levels,
        tags: Vec::new(),
        mappings: Vec::new(),
        expected_evidence: Vec::new(),
        excerpt_status: ExcerptStatus::Empty,
        last_reviewed: None,
        ingest: None,
    };
    ControlStub { relative_path: rel, frontmatter: fm, body: default_body(name) }
}

/// Adds the stubs of one category's points.
fn scaffold_points(stubs: &mut Vec<ControlStub>, seen: &mut Vec<String>, Ghost(done): Ghost<Seq<Step>>, framework: &str, level: u8, key: &str, domain: &Domain, c: &CategoryStructure) -> (r: Result<(), ScaffoldError>)
    requires
        state_ok(old(stubs)@, old(seen)@, done, framework@, level),
        domain@ == key@,
    ensures
        outcome(r, final(stubs)@, final(seen)@, done + point_steps(key@, *c), framework@, level),
{
    let ghost ps = point_steps(key@, *c);
    let mut dot = chars_of(c.prefix.as_str());
    dot.push('.');
    proof {
        reveal_strlit(".");
        assert(dot@ =~= c.prefix@ + "."@);
    }
    let mut i: usize = 0;
    assert(done + ps.take(0) =~= done);
    while i < c.points.len()
        invariant
            i <= c.points@.len(),
            ps == point_steps(key@, *c),
            dot@ == c.prefix@ + "."@,
            domain@ == key@,
            state_ok(stubs@, seen@, done + ps.take(i as int), framework@, level),
        decreases c.points.len() - i,
    {
        let ghost cur = done + ps.take(i as int);
        let ghost step = ps[i as int];
        assert(done + ps.take(i + 1) =~= cur.push(step));
        assert((done + ps.take(i + 1)).drop_last() =~= cur);
        let p = &c.points[i];
        let idv = chars_of(p.id.as_str());
        if !starts_with(&idv, &dot) {
            proof {
                reveal_strlit(".");
            }
            assert(first_step_fault(done + ps.take(i + 1)) == Some((i + done.len(), StepFault::PrefixMismatch)));
            proof {
                lemma_fault_extends(done + ps.take(i + 1), ps.skip(i + 1));
                assert(done + ps.take(i + 1) + ps.skip(i + 1) =~= done + ps);
            }
            return Err(ScaffoldError::PrefixMismatch { control_id: p.id.clone(), prefix: c.prefix.clone() });
        }
        if crate::text::contains_text(seen, p.id.as_str()) {
            proof {
                let j = choose|j: int| 0 <= j < seen@.len() && #[trigger] seen@[j]@ == p.id@;
                assert(crate::text::texts(seen@)[j] == p.id@);
                assert(point_ids(cur).contains(p.id@));
            }
            assert(first_step_fault(done + ps.take(i + 1)) == Some((i + done.len(), StepFault::DuplicateId)));
            proof {
                lemma_fault_extends(done + ps.take(i + 1), ps.skip(i + 1));
                assert(done + ps.take(i + 1) + ps.skip(i + 1) =~= done + ps);
            }
            return Err(ScaffoldError::DuplicateId(p.id.clone()));
        }
        proof {
            if point_ids(cur).contains(p.id@) {
                let j = choose|j: int| 0 <= j < point_ids(cur).len() && point_ids(cur)[j] == p.id@;
                assert(seen@[j]@ == p.id@);
            }
        }
        let stub = make_stub(framework, level, key, domain, c.name.as_str(), p.id.as_str(), p.name.as_str());
        stubs.push(stub);
        seen.push(p.id.clone());
        proof {
            let nxt = done + ps.take(i + 1);
            assert(points_of(nxt) == points_of(cur).push(step));
            assert(point_ids(nxt) == point_ids(cur).push(p.id@));
            assert(crate::text::texts(seen@) =~= point_ids(nxt));
            assert forall|q: int| 0 <= q < stubs@.len() implies stub_of(#[trigger] stubs@[q], points_of(nxt)[q], framework@, level) by {
                if q < stubs@.len() - 1 {
                    assert(points_of(nxt)[q] == points_of(cur)[q]);
                }
            }
        }
        i += 1;
    }
    assert(ps.take(c.points@.len() as int) =~= ps);
    Ok(())
}

/// Adds the stubs of one domain: its key must name a domain, then its
/// categories are read in order.
fn scaffold_domain(stubs: &mut Vec<ControlStub>, seen: &mut Vec<String>, Ghost(done): Ghost<Seq<Step>>, framework: &str, level: u8, d: &DomainStructure) -> (r: Result<(), ScaffoldError>)
    requires
        state_ok(old(stubs)@, old(seen)@, done, framework@, level),
    ensures
        outcome(r, final(stubs)@, final(seen)@, done + domain_steps(*d), framework@, level),
{
    let ghost ds = domain_steps(*d);
    let ghost first = done.push(Step::Domain(d.key@));
    assert(first.drop_last() == done);
    let domain = match Domain::new(d.key.as_str()) {
        Ok(x) => x,
        Err(e) => {
            assert(first_step_fault(first) == Some((done.len() as int, StepFault::BadDomain)));
            proof {
                lemma_fault_extends(first, category_steps(d.key@, d.categories@));
                assert(first + category_steps(d.key@, d.categories@) =~= done + ds);
            }
            return Err(ScaffoldError::BadDomain { key: d.key.clone(), error: e });
        },
    };
    assert(points_of(first) == points_of(done));
    assert(point_ids(first) == point_ids(done));
    let cs = &d.categories;
    let mut i: usize = 0;
    assert(first + category_steps(d.key@, cs@.take(0)) =~= first);
    while i < cs.len()
        invariant
            i <= cs@.len(),
            cs == &d.categories,
            domain@ == d.key@,
            ds == domain_steps(*d),
            first == done.push(Step::Domain(d.key@)),
            state_ok(stubs@, seen@, first + category_steps(d.key@, cs@.take(i as int)), framework@, level),
        decreases cs.len() - i,
    {
        let ghost cur = first + category_steps(d.key@, cs@.take(i as int));
        assert(cs@.take(i + 1).drop_last() == cs@.take(i as int));
        assert(cs@.take(i + 1).last() == cs@[i as int]);
        assert(first + category_steps(d.key@, cs@.take(i + 1)) =~= cur + point_steps(d.key@, cs@[i as int]));
        match scaffold_points(stubs, seen, Ghost(cur), framework, level, d.key.as_str(), &domain, &cs[i]) {
            Ok(()) => {},
            Err(e) => {
                proof {
                    let nxt = cur + point_steps(d.key@, cs@[i as int]);
                    lemma_category_steps_prefix(d.key@, cs@, i + 1);
                    let pre = category_steps(d.key@, cs@.take(i + 1));
                    let rest = category_steps(d.key@, cs@).skip(pre.len() as int);
                    assert(nxt == first + pre);
                    assert(category_steps(d.key@, cs@) == pre + rest);
                    assert(done + ds =~= first + category_steps(d.key@, cs@));
                    assert(first + (pre + rest) =~= (first + pre) + rest);
                    assert(nxt + rest == done + ds);
                    lemma_fault_extends(nxt, rest);
                }
                return Err(e);
            },
        }
        i += 1;
    }
    assert(cs@.take(cs@.len() as int) == cs@);
    assert(first + category_steps(d.key@, cs@) =~= done + ds);
    Ok(())
}

proof fn lemma_category_steps_prefix(key: Seq<char>, cs: Seq<CategoryStructure>, n: int)
    requires
        0 <= n <= cs.len(),
    ensures
        category_steps(key, cs.take(n)).len() <= category_steps(key, cs).len(),
        category_steps(key, cs) == category_steps(key, cs.take(n)) + category_steps(key, cs).skip(
            category_steps(key, cs.take(n)).len() as int,
        ),
    decreases cs.len() - n,
{
    if n < cs.len() {
        lemma_category_steps_prefix(key, cs.drop_last(), n);
        assert(cs.drop_last().take(n) == cs.take(n));
        let a = category_steps(key, cs.take(n));
        let b = category_steps(key, cs.drop_last());
        assert(category_steps(key, cs) == b + point_steps(key, cs.last()));
        assert(category_steps(key, cs) =~= a + category_steps(key, cs).skip(a.len() as int));
    } else {
        assert(cs.take(n) == cs);
        assert(category_steps(key, cs).skip(category_steps(key, cs).len() as int) =~= Seq::<Step>::empty());
        assert(category_steps(key, cs) =~= category_steps(key, cs) + Seq::<Step>::empty());
    }
}

proof fn lemma_steps_prefix(ds: Seq<DomainStructure>, n: int)
    requires
        0 <= n <= ds.len(),
    ensures
        steps(ds.take(n)).len() <= steps(ds).len(),
        steps(ds) == steps(ds.take(n)) + steps(ds).skip(steps(ds.take(n)).len() as int),
    decreases ds.len() - n,
{
    if n < ds.len() {
        lemma_steps_prefix(ds.drop_last(), n);
        assert(ds.drop_last().take(n) == ds.take(n));
        let a = steps(ds.take(n));
        assert(steps(ds) =~= a + steps(ds).skip(a.len() as int));
    } else {
        assert(ds.take(n) == ds);
        assert(steps(ds) =~= steps(ds) + steps(ds).skip(steps(ds).len() as int));
    }
}

/// The stubs of every point of a structure table, in reading order; the
/// first faulty step (a blank domain, an id outside its category's prefix,
/// a repeated id) is reported instead.
pub fn stubs(structure: &FrameworkStructure) -> (r: Result<Vec<ControlStub>, ScaffoldError>)
    ensures
        match first_step_fault(steps(structure.domains@)) {
            Some((k, f)) => r matches Err(e) && error_of(e, steps(structure.domains@)[k], f),
            None => r matches Ok(v) && v@.len() == points_of(steps(structure.domains@)).len() && forall|i: int|
                0 <= i < v@.len() ==> stub_of(
                    #[trigger] v@[i],
                    points_of(steps(structure.domains@))[i],
                    structure.framework@,
                    structure.level,
                ),
        },
{
    let ds = &structure.domains;
    let mut out: Vec<ControlStub> = Vec::new();
    let mut seen: Vec<String> = Vec::new();
    let mut i: usize = 0;
    assert(ds@.take(0) =~= Seq::<DomainStructure>::empty());
    assert(crate::text::texts(seen@) =~= Seq::<Seq<char>>::empty());
    while i < ds.len()
        invariant
            i <= ds@.len(),
            ds == &structure.domains,
            state_ok(out@, seen@, steps(ds@.take(i as int)), structure.framework@, structure.level),
        decreases ds.len() - i,
    {
        let ghost cur = steps(ds@.take(i as int));
        assert(ds@.take(i + 1).drop_last() == ds@.take(i as int));
        assert(ds@.take(i + 1).last() == ds@[i as int]);
        match scaffold_domain(&mut out, &mut seen, Ghost(cur), structure.framework.as_str(), structure.level, &ds[i]) {
            Ok(()) => {},
            Err(e) => {
                proof {
                    let nxt = cur + domain_steps(ds@[i as int]);
                    lemma_steps_prefix(ds@, i + 1);
                    let pre = steps(ds@.take(i + 1));
                    let rest = steps(ds@).skip(pre.len() as int);
                    assert(nxt == pre);
                    lemma_fault_extends(nxt, rest);
                }
                return Err(e);
            },
        }
        i += 1;
    }
    assert(ds@.take(ds@.len() as int) == ds@);
    Ok(out)
}

/// The stubs whose files do not exist yet (`present[i]` tells whether the
/// file of `made[i]` exists), in order: an existing control file is never
/// overwritten.
pub open spec fn new_stubs(made: Seq<ControlStub>, present: Seq<bool>) -> Seq<ControlStub>
    decreases made.len(),
{
    if made.len() == 0 {
        Seq::empty()
    } else {
        let r = new_stubs(made.drop_last(), present.drop_last());
        if present.last() {
            r
        } else {
            r.push(made.last())
        }
    }
}

/// How many of the stubs already have a file.
pub open spec fn present_count(present: Seq<bool>) -> nat
    decreases present.len(),
{
    if present.len() == 0 {
        0
    } else {
        present_count(present.drop_last()) + if present.last() { 1nat } else { 0nat }
    }
}

/// Splits the stubs of a scaffold into those to write and the number of those
/// whose file is already there, which are left as they are.
pub fn stubs_to_write(made: Vec<ControlStub>, present: &Vec<bool>) -> (r: (Vec<ControlStub>, usize))
    requires
        present@.len() == made@.len(),
    ensures
        r.0@ == new_stubs(made@, present@),
        r.1 == present_count(present@),
{
    let ghost all = made@;
    let mut rest = made;
    let mut out: Vec<ControlStub> = Vec::new();
    let mut skipped: usize = 0;
    let mut i: usize = 0;
    while i < present.len()
        invariant
            all.len() == present@.len(),
            i <= present@.len(),
            rest@ == all.skip(i as int),
            out@ == new_stubs(all.take(i as int), present@.take(i as int)),
            skipped == present_count(present@.take(i as int)),
            skipped <= i,
        decreases present.len() - i,
    {
        let stub = rest.remove(0);
        proof {
            assert(stub == all[i as int]);
            assert(all.take(i + 1).drop_last() =~= all.take(i as int));
            assert(present@.take(i + 1).drop_last() =~= present@.take(i as int));
            assert(all.take(i + 1).last() == all[i as int]);
            assert(present@.take(i + 1).last() == present@[i as int]);
            assert(rest@ =~= all.skip(i + 1));
        }
        if present[i] {
            skipped += 1;
        } else {
            out.push(stub);
        }
        i += 1;
    }
    assert(all.take(i as int) =~= all);
    assert(present@.take(i as int) =~= present@);
    (out, skipped)
}

/// Every stub that is written had no file yet, and when every file exists
/// nothing is written: scaffolding again leaves every control file as it was.
pub proof fn lemma_existing_stubs_untouched(made: Seq<ControlStub>, present: Seq<bool>)
    requires
        present.len() == made.len(),
    ensures
        forall|j: int| 0 <= j < new_stubs(made, present).len() ==> exists|i: int|
            0 <= i < made.len() && !present[i] && #[trigger] new_stubs(made, present)[j] == made[i],
        (forall|i: int| 0 <= i < present.len() ==> #[trigger] present[i]) ==> new_stubs(made, present).len() == 0,
        new_stubs(made, present).len() + present_count(present) == made.len(),
    decreases made.len(),
{
    if made.len() > 0 {
        let m0 = made.drop_last();
        let p0 = present.drop_last();
        lemma_existing_stubs_untouched(m0, p0);
        let r = new_stubs(m0, p0);
        assert forall|j: int| 0 <= j < new_stubs(made, present).len() implies exists|i: int|
            0 <= i < made.len() && !present[i] && #[trigger] new_stubs(made, present)[j] == made[i] by {
            if j < r.len() {
                let i = choose|i: int| 0 <= i < m0.len() && !p0[i] && #[trigger] r[j] == m0[i];
                assert(made[i] == m0[i] && present[i] == p0[i]);
            } else {
                assert(new_stubs(made, present)[j] == made[made.len() - 1]);
                assert(!present[made.len() - 1]);
            }
        }
        if forall|i: int| 0 <= i < present.len() ==> #[trigger] present[i] {
            assert forall|i: int| 0 <= i < p0.len() implies #[trigger] p0[i] by {
                assert(present[i]);
            }
            assert(present[present.len() - 1]);
        }
    }
}

/// The message printed after scaffolding.
pub open spec fn scaffold_text(created: nat, skipped: nat, framework: Seq<char>, dir: Seq<char>) -> Seq<char> {
    "scaffolded "@ + crate::text::dec(created) + " controls ("@ + crate::text::dec(skipped) + " already existed) for "@
        + framework + " into "@ + dir
}

/// The message printed after scaffolding.
pub fn scaffold_message(created: usize, skipped: usize, framework: &str, dir: &str) -> (s: String)
    ensures
        s@ == scaffold_text(created as nat, skipped as nat, framework@, dir@),
{
    let mut v = chars_of("scaffolded ");
    crate::text::append_dec(&mut v, created);
    append_str(&mut v, " controls (");
    crate::text::append_dec(&mut v, skipped);
    append_str(&mut v, " already existed) for ");
    append_str(&mut v, framework);
    append_str(&mut v, " into ");
    append_str(&mut v, dir);
    string_of(&v)
}

} // verus!
