//! Setting up a project: the level it is assessed at, and a matrix that lists
//! every applicable control of the framework as not yet assessed.

use vstd::prelude::*;

use crate::compliance::control::{ControlIndex, ControlIndexEntry};
use crate::model::{ControlId, Framework};
use crate::paths::{file_name, file_name_of};
use crate::project::matrix::{has_key, Matrix, MatrixEntry, Scope};
use crate::text::{append_dec, append_str, dec, owned, string_of};

verus! {

/// A control without declared levels applies to every project; one with
/// levels applies when no level is selected or the selected one is among them.
pub open spec fn applies_to_level(selected: Option<u8>, levels: Seq<u8>) -> bool {
    levels.len() == 0 || match selected {
        None => true,
        Some(l) => levels.contains(l),
    }
}

/// Whether a control with the given levels belongs in a project of the
/// selected level.
pub fn control_applies_to_level(selected_level: Option<u8>, control_levels: &[u8]) -> (b: bool)
    ensures
        b == applies_to_level(selected_level, control_levels@),
{
    if control_levels.len() == 0 {
        return true;
    }
    match selected_level {
        None => true,
        Some(l) => {
            let mut i: usize = 0;
            while i < control_levels.len()
                invariant
                    i <= control_levels@.len(),
                    selected_level == Some(l),
                    control_levels@.len() > 0,
                    forall|j: int| 0 <= j < i ==> control_levels@[j] != l,
                decreases control_levels.len() - i,
            {
                if control_levels[i] == l {
                    assert(control_levels@[i as int] == l);
                    assert(control_levels@.contains(l));
                    return true;
                }
                i += 1;
            }
            false
        },
    }
}

/// Every level that some control of the index declares.
pub open spec fn all_levels(controls: Seq<ControlIndexEntry>) -> Set<u8> {
    Set::new(
        |x: u8|
            exists|i: int, k: int|
                0 <= i < controls.len() && 0 <= k < controls[i].levels@.len() && #[trigger] controls[i].levels@[k]
                    == x,
    )
}

/// Strictly increasing numbers.
pub open spec fn increasing(s: Seq<u8>) -> bool {
    forall|i: int, j: int| 0 <= i < j < s.len() ==> #[trigger] s[i] < #[trigger] s[j]
}

fn insert_level(v: &mut Vec<u8>, x: u8)
    requires
        increasing(old(v)@),
    ensures
        increasing(final(v)@),
        final(v)@.to_set() == old(v)@.to_set().insert(x),
{
    let mut p: usize = 0;
    while p < v.len() && v[p] < x
        invariant
            p <= v@.len(),
            v@ == old(v)@,
            forall|j: int| 0 <= j < p ==> v@[j] < x,
        decreases v.len() - p,
    {
        p += 1;
    }
    if p < v.len() && v[p] == x {
        assert(v@.to_set().contains(x));
        assert(v@.to_set().insert(x) =~= v@.to_set());
        return;
    }
    let ghost old_v = v@;
    let ghost pos = p as int;
    v.insert(p, x);
    assert(v@ == old_v.insert(pos, x));
    assert forall|i: int, j: int| 0 <= i < j < v@.len() implies #[trigger] v@[i] < #[trigger] v@[j] by {
        if j < pos {
            assert(v@[i] == old_v[i] && v@[j] == old_v[j]);
        } else if j == pos {
            assert(v@[i] == old_v[i]);
        } else if i == pos {
            assert(v@[j] == old_v[j - 1]);
            assert(old_v[pos] >= x);
        } else if i < pos {
            assert(v@[i] == old_v[i] && v@[j] == old_v[j - 1]);
        } else {
            assert(v@[i] == old_v[i - 1] && v@[j] == old_v[j - 1]);
        }
    }
    assert forall|y: u8| v@.to_set().contains(y) implies old_v.to_set().insert(x).contains(y) by {
        let i = choose|i: int| 0 <= i < v@.len() && v@[i] == y;
        if i < pos {
            assert(old_v[i] == y);
        } else if i > pos {
            assert(old_v[i - 1] == y);
        }
    }
    assert forall|y: u8| old_v.to_set().insert(x).contains(y) implies v@.to_set().contains(y) by {
        if y == x {
            assert(v@[pos] == y);
        } else {
            let i = choose|i: int| 0 <= i < old_v.len() && old_v[i] == y;
            if i < pos {
                assert(v@[i] == y);
            } else {
                assert(v@[i + 1] == y);
            }
        }
    }
    assert(v@.to_set() =~= old_v.to_set().insert(x));
}

/// The levels the framework declares, in increasing order, each once.
pub fn declared_levels(index: &ControlIndex) -> (v: Vec<u8>)
    ensures
        increasing(v@),
        v@.to_set() == all_levels(index.controls@),
{
    let controls = &index.controls;
    let mut v: Vec<u8> = Vec::new();
    let mut i: usize = 0;
    while i < controls.len()
        invariant
            i <= controls@.len(),
            increasing(v@),
            v@.to_set() == all_levels(controls@.take(i as int)),
        decreases controls.len() - i,
    {
        let levels = &controls[i].levels;
        let ghost before = v@.to_set();
        let mut k: usize = 0;
        while k < levels.len()
            invariant
                k <= levels@.len(),
                increasing(v@),
                v@.to_set() == before + levels@.take(k as int).to_set(),
            decreases levels.len() - k,
        {
            insert_level(&mut v, levels[k]);
            assert(levels@.take(k + 1) == levels@.take(k as int).push(levels@[k as int]));
            proof {
                levels@.take(k as int).lemma_push_to_set_commute(levels@[k as int]);
            }
            assert(v@.to_set() =~= before + levels@.take(k + 1).to_set());
            k += 1;
        }
        assert(levels@.take(levels@.len() as int) == levels@);
        let ghost ci = controls@.take(i as int);
        let ghost cn = controls@.take(i + 1);
        assert(all_levels(cn) =~= all_levels(ci) + controls@[i as int].levels@.to_set()) by {
            assert forall|y: u8| all_levels(cn).contains(y) implies (all_levels(ci) + controls@[i as int].levels@.to_set()).contains(y) by {
                let (a, b) = choose|a: int, b: int|
                    0 <= a < cn.len() && 0 <= b < cn[a].levels@.len() && #[trigger] cn[a].levels@[b] == y;
                if a < i {
                    assert(ci[a] == cn[a]);
                    assert(ci[a].levels@[b] == y);
                } else {
                    assert(controls@[i as int].levels@[b] == y);
                }
            }
            assert forall|y: u8| (all_levels(ci) + controls@[i as int].levels@.to_set()).contains(y) implies all_levels(cn).contains(y) by {
                if all_levels(ci).contains(y) {
                    let (a, b) = choose|a: int, b: int|
                        0 <= a < ci.len() && 0 <= b < ci[a].levels@.len() && #[trigger] ci[a].levels@[b] == y;
                    assert(cn[a] == ci[a]);
                    assert(cn[a].levels@[b] == y);
                } else {
                    let b = choose|b: int| 0 <= b < controls@[i as int].levels@.len() && controls@[i as int].levels@[b] == y;
                    assert(cn[i as int] == controls@[i as int]);
                    assert(cn[i as int].levels@[b] == y);
                }
            }
        }
        i += 1;
    }
    assert(controls@.take(controls@.len() as int) == controls@);
    v
}

/// Why a project cannot be set up at the requested level.
#[derive(Debug, Clone, PartialEq, Eq)]
pub enum InitError {
    /// Level 0 was requested.
    ZeroLevel,
    /// The requested level is not one the framework declares.
    UndeclaredLevel { level: u8, declared: Vec<u8> },
    /// The framework declares several levels and none was chosen.
    AmbiguousLevel { declared: Vec<u8> },
}

/// The level decision: a requested level must be positive and declared (when
/// the framework declares levels); without a request, a single declared
/// level is taken, several are ambiguous, none means no level.
pub enum LevelFault {
    Zero,
    Undeclared,
    Ambiguous,
}

pub open spec fn level_choice(requested: Option<u8>, declared: Seq<u8>) -> Result<Option<u8>, LevelFault> {
    match requested {
        Some(v) => if v == 0 {
            Err(LevelFault::Zero)
        } else if declared.len() > 0 && !declared.contains(v) {
            Err(LevelFault::Undeclared)
        } else {
            Ok(Some(v))
        },
        None => if declared.len() == 1 {
            Ok(Some(declared[0]))
        } else if declared.len() > 1 {
            Err(LevelFault::Ambiguous)
        } else {
            Ok(None)
        },
    }
}

/// Decides the level of a new project from the request and the declared levels.
pub fn choose_level(requested: Option<u8>, declared: &Vec<u8>) -> (r: Result<Option<u8>, InitError>)
    ensures
        match level_choice(requested, declared@) {
            Ok(l) => r == Ok::<Option<u8>, InitError>(l),
            Err(LevelFault::Zero) => r == Err::<Option<u8>, InitError>(InitError::ZeroLevel),
            Err(LevelFault::Undeclared) => (r matches Err(InitError::UndeclaredLevel { level, declared: d })
                && Some(level) == requested && d@ == declared@),
            Err(LevelFault::Ambiguous) => (r matches Err(InitError::AmbiguousLevel { declared: d }) && d@
                == declared@),
        },
{
    match requested {
        Some(v) => {
            if v == 0 {
                return Err(InitError::ZeroLevel);
            }
            if declared.len() > 0 {
                let mut i: usize = 0;
                while i < declared.len()
                    invariant
                        i <= declared@.len(),
                        requested == Some(v),
                        v != 0,
                        declared@.len() > 0,
                        forall|j: int| 0 <= j < i ==> declared@[j] != v,
                    decreases declared.len() - i,
                {
                    if declared[i] == v {
                        assert(declared@[i as int] == v);
                        assert(declared@.contains(v));
                        return Ok(Some(v));
                    }
                    i += 1;
                }
                return Err(InitError::UndeclaredLevel { level: v, declared: declared.clone() });
            }
            Ok(Some(v))
        },
        None => {
            if declared.len() == 1 {
                Ok(Some(declared[0]))
            } else if declared.len() > 1 {
                Err(InitError::AmbiguousLevel { declared: declared.clone() })
            } else {
                Ok(None)
            }
        },
    }
}

/// Whether an entry is a fresh, unassessed one.
pub open spec fn is_fresh(e: MatrixEntry) -> bool {
    &&& e.status is Unassessed
    &&& e.owner@.len() == 0
    &&& e.evidence@.len() == 0
    &&& e.facts@.len() == 0
    &&& e.project_facts@.len() == 0
    &&& e.gap@.len() == 0
    &&& e.remediation@.len() == 0
    &&& e.last_updated is None
    &&& e.ingest is None
}

/// Whether some control of the index applies at `level` and has identifier `k`.
pub open spec fn applicable_id(controls: Seq<ControlIndexEntry>, level: Option<u8>, k: (Seq<char>, Seq<char>)) -> bool {
    exists|i: int| 0 <= i < controls.len() && applies_to_level(level, controls[i].levels@) && #[trigger] controls[i].id@ == k
}

/// The matrix of a new project: one unassessed row for every control that
/// applies at the level, in natural order, and nothing else.
pub fn initial_matrix(index: &ControlIndex, framework: &str, system: &str, level: Option<u8>) -> (m: Matrix)
    ensures
        m.wf(),
        m.framework.0@ == framework@,
        m.level == level,
        m.scope.systems@.len() == 1 && m.scope.systems@[0]@ == system@,
        m.scope.boundary_ref is None,
        forall|i: int| 0 <= i < index.controls@.len() && applies_to_level(level, (#[trigger] index.controls@[i]).levels@)
            ==> has_key(m.keys(), index.controls@[i].id@),
        forall|j: int| 0 <= j < m.entries@.len() ==> is_fresh((#[trigger] m.entries@[j]).1) && applicable_id(
            index.controls@,
            level,
            m.entries@[j].0@,
        ),
{
    let mut systems: Vec<String> = Vec::new();
    systems.push(owned(system));
    let scope = Scope { systems, boundary_ref: None };
    let mut m = Matrix::new(Framework(owned(framework)), level, scope);
    let controls = &index.controls;
    let mut i: usize = 0;
    while i < controls.len()
        invariant
            i <= controls@.len(),
            m.wf(),
            m.framework.0@ == framework@,
            m.level == level,
            m.scope.systems@.len() == 1 && m.scope.systems@[0]@ == system@,
            m.scope.boundary_ref is None,
            forall|a: int| 0 <= a < i && applies_to_level(level, (#[trigger] controls@[a]).levels@)
                ==> has_key(m.keys(), controls@[a].id@),
            forall|j: int| 0 <= j < m.entries@.len() ==> is_fresh((#[trigger] m.entries@[j]).1) && applicable_id(
                controls@,
                level,
                m.entries@[j].0@,
            ),
        decreases controls.len() - i,
    {
        if control_applies_to_level(level, controls[i].levels.as_slice()) {
            let ghost before = m;
            let e = MatrixEntry::empty();
            let id = controls[i].id.duplicate();
            m.insert(id, e);
            proof {
                assert forall|a: int| 0 <= a < i + 1 && applies_to_level(level, (#[trigger] controls@[a]).levels@)
                    implies has_key(m.keys(), controls@[a].id@) by {
                    if a < i {
                        assert(has_key(before.keys(), controls@[a].id@));
                    }
                }
                assert forall|j: int| 0 <= j < m.entries@.len() implies is_fresh((#[trigger] m.entries@[j]).1)
                    && applicable_id(controls@, level, m.entries@[j].0@) by {
                    if before.entries@.contains(m.entries@[j]) {
                        let t = choose|t: int| 0 <= t < before.entries@.len() && before.entries@[t] == m.entries@[j];
                        assert(is_fresh(before.entries@[t].1));
                    } else if m.entries@[j].0@ == id@ {
                        assert(controls@[i as int].id@ == id@);
                    } else {
                        let t = choose|t: int| 0 <= t < before.keys().len() && before.keys()[t] == m.entries@[j].0@;
                        assert(before.keys()[t] == before.entries@[t].0@);
                        assert(applicable_id(controls@, level, before.entries@[t].0@));
                    }
                }
            }
        }
        i += 1;
    }
    m
}

/// The name of a project created at `path`: its last component when that
/// is a normal name, else the path as given.
pub fn project_name(path: &str) -> (n: String)
    ensures
        n@ == match file_name_of(path@) {
            Some(f) => f,
            None => path@,
        },
{
    match file_name(path) {
        Some(f) => f,
        None => owned(path),
    }
}

/// The message printed once a project is set up.
pub open spec fn init_message(name: Seq<char>, system: Seq<char>, framework: Seq<char>, level: Option<u8>, count: nat) -> Seq<char> {
    "initialized project `"@ + name + "` (system="@ + system + ", framework="@ + framework + ", level="@
        + (match level {
        Some(l) => dec(l as nat),
        None => "-"@,
    }) + ", "@ + dec(count) + " controls)"@
}

/// The message printed once a project is set up.
pub fn init_summary(name: &str, system: &str, framework: &str, level: Option<u8>, count: usize) -> (s: String)
    ensures
        s@ == init_message(name@, system@, framework@, level, count as nat),
{
    let mut v: Vec<char> = Vec::new();
    append_str(&mut v, "initialized project `");
    append_str(&mut v, name);
    append_str(&mut v, "` (system=");
    append_str(&mut v, system);
    append_str(&mut v, ", framework=");
    append_str(&mut v, framework);
    append_str(&mut v, ", level=");
    match level {
        Some(l) => append_dec(&mut v, l as usize),
        None => append_str(&mut v, "-"),
    }
    append_str(&mut v, ", ");
    append_dec(&mut v, count);
    append_str(&mut v, " controls)");
    string_of(&v)
}

} // verus!
