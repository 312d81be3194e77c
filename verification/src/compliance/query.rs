//! Queries on a framework index: finding a control, and the compact listing
//! that reads the index only.

use vstd::prelude::*;

use crate::compliance::control::{excerpt_status_text, ControlIndex, ControlIndexEntry};
use crate::model::{id_text, ControlId, Domain};
use crate::sorted::{insert_sorted, lemma_is_sorted_set, lemma_push_to_set, sorted_set, strictly_sorted};
use crate::text::{append_str, string_of, texts};

verus! {

/// The position of the first index entry with exactly this id, or -1.
pub open spec fn control_pos(cs: Seq<ControlIndexEntry>, id: (Seq<char>, Seq<char>)) -> int
    decreases cs.len(),
{
    if cs.len() == 0 {
        -1
    } else if cs[0].id@ == id {
        0
    } else {
        let p = control_pos(cs.drop_first(), id);
        if p < 0 {
            -1
        } else {
            p + 1
        }
    }
}

pub proof fn lemma_control_pos(cs: Seq<ControlIndexEntry>, id: (Seq<char>, Seq<char>))
    ensures
        -1 <= control_pos(cs, id) < cs.len(),
        control_pos(cs, id) >= 0 ==> cs[control_pos(cs, id)].id@ == id,
        control_pos(cs, id) >= 0 ==> forall|j: int| 0 <= j < control_pos(cs, id) ==> (#[trigger] cs[j]).id@ != id,
        control_pos(cs, id) < 0 ==> forall|j: int| 0 <= j < cs.len() ==> (#[trigger] cs[j]).id@ != id,
    decreases cs.len(),
{
    if cs.len() > 0 && cs[0].id@ != id {
        let t = cs.drop_first();
        lemma_control_pos(t, id);
        assert forall|j: int| 1 <= j < cs.len() implies cs[j] == t[j - 1] by {}
    }
}

/// The position of a control in the index.
pub fn find_control(index: &ControlIndex, id: &ControlId) -> (r: Option<usize>)
    ensures
        r matches Some(i) ==> i as int == control_pos(index.controls@, id@) && i < index.controls@.len(),
        r is None ==> control_pos(index.controls@, id@) < 0,
{
    proof {
        lemma_control_pos(index.controls@, id@);
    }
    let mut i: usize = 0;
    while i < index.controls.len()
        invariant
            i <= index.controls@.len(),
            forall|j: int| 0 <= j < i ==> (#[trigger] index.controls@[j]).id@ != id@,
            -1 <= control_pos(index.controls@, id@) < index.controls@.len(),
            control_pos(index.controls@, id@) >= 0 ==> index.controls@[control_pos(index.controls@, id@)].id@ == id@,
            control_pos(index.controls@, id@) >= 0 ==> forall|j: int|
                0 <= j < control_pos(index.controls@, id@) ==> (#[trigger] index.controls@[j]).id@ != id@,
            control_pos(index.controls@, id@) < 0 ==> forall|j: int|
                0 <= j < index.controls@.len() ==> (#[trigger] index.controls@[j]).id@ != id@,
        decreases index.controls.len() - i,
    {
        if index.controls[i].id.same(id) {
            return Some(i);
        }
        i += 1;
    }
    None
}

/// Whether the index lists the control, so that facts do not refer to a
/// control that does not exist.
pub fn ensure_control_exists(index: &ControlIndex, id: &ControlId) -> (b: bool)
    ensures
        b == (control_pos(index.controls@, id@) >= 0),
{
    find_control(index, id).is_some()
}

/// One line of `compliance list`.
pub open spec fn list_line(e: ControlIndexEntry) -> Seq<char> {
    id_text(e.id@) + "  "@ + e.title@ + "  "@ + e.domain@ + "/"@ + e.category@ + "  ["@ + excerpt_status_text(
        e.excerpt_status,
    ) + "]\n"@
}

/// Whether an entry passes the optional domain filter.
pub open spec fn in_domain(e: ControlIndexEntry, d: Option<Seq<char>>) -> bool {
    match d {
        Some(x) => e.domain@ == x,
        None => true,
    }
}

/// The listing lines of the entries in the domain, in index order.
pub open spec fn list_lines(cs: Seq<ControlIndexEntry>, d: Option<Seq<char>>) -> Seq<char>
    decreases cs.len(),
{
    if cs.len() == 0 {
        Seq::empty()
    } else {
        list_lines(cs.drop_last(), d) + if in_domain(cs.last(), d) {
            list_line(cs.last())
        } else {
            Seq::empty()
        }
    }
}

/// How many entries are listed.
pub open spec fn listed_count(cs: Seq<ControlIndexEntry>, d: Option<Seq<char>>) -> nat
    decreases cs.len(),
{
    if cs.len() == 0 {
        0
    } else {
        listed_count(cs.drop_last(), d) + if in_domain(cs.last(), d) {
            1nat
        } else {
            0nat
        }
    }
}

/// The listing of one framework's controls, with how many were listed.
pub fn list(index: &ControlIndex, domain: Option<&Domain>) -> (r: (String, usize))
    ensures
        r.0@ == list_lines(index.controls@, match domain { Some(d) => Some(d@), None => None }),
        r.1 == listed_count(index.controls@, match domain { Some(d) => Some(d@), None => None }),
{
    let ghost d = match domain { Some(d) => Some(d@), None => None };
    let cs = &index.controls;
    let mut v: Vec<char> = Vec::new();
    let mut n: usize = 0;
    let mut i: usize = 0;
    while i < cs.len()
        invariant
            i <= cs@.len(),
            d == match domain { Some(x) => Some(x@), None => None::<Seq<char>> },
            v@ == list_lines(cs@.take(i as int), d),
            n == listed_count(cs@.take(i as int), d),
            n <= i,
        decreases cs.len() - i,
    {
        assert(cs@.take(i + 1).drop_last() == cs@.take(i as int));
        assert(cs@.take(i + 1).last() == cs@[i as int]);
        let e = &cs[i];
        let keep = match domain {
            Some(x) => crate::text::str_eq(e.domain.as_str(), x.as_str()),
            None => true,
        };
        if keep {
            let ghost before = v@;
            let id = e.id.to_text();
            append_str(&mut v, id.as_str());
            append_str(&mut v, "  ");
            append_str(&mut v, e.title.as_str());
            append_str(&mut v, "  ");
            append_str(&mut v, e.domain.as_str());
            append_str(&mut v, "/");
            append_str(&mut v, e.category.as_str());
            append_str(&mut v, "  [");
            append_str(&mut v, e.excerpt_status.as_str());
            append_str(&mut v, "]\n");
            assert(v@ =~= before + list_line(*e));
            n += 1;
        }
        i += 1;
    }
    assert(cs@.take(cs@.len() as int) == cs@);
    (string_of(&v), n)
}

/// Framework directory names in string order, each once.
pub fn sorted_names(names: &Vec<String>) -> (r: Vec<String>)
    ensures
        texts(r@) == sorted_set(texts(names@)),
{
    let mut r: Vec<String> = Vec::new();
    let mut i: usize = 0;
    while i < names.len()
        invariant
            i <= names@.len(),
            strictly_sorted(texts(r@)),
            texts(r@).to_set() == texts(names@).take(i as int).to_set(),
        decreases names.len() - i,
    {
        insert_sorted(&mut r, names[i].as_str());
        assert(texts(names@).take(i + 1) == texts(names@).take(i as int).push(names@[i as int]@));
        proof {
            lemma_push_to_set(texts(names@).take(i as int), names@[i as int]@);
        }
        i += 1;
    }
    assert(texts(names@).take(names@.len() as int) == texts(names@));
    proof {
        lemma_is_sorted_set(texts(r@), texts(names@));
    }
    r
}

} // verus!
