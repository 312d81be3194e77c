//! Building a framework's compact index from its control files: every file's
//! frontmatter is checked, and the controls are listed in the natural order of
//! their numbers.

use std::cmp::Ordering;
use vstd::prelude::*;

use crate::compliance::control::{ControlFrontmatter, ControlIndex, ControlIndexEntry};
use crate::model::{lemma_natural_cmp_antisymmetric, natural_cmp, natural_control_cmp, ControlId, Framework};
use crate::text::{ix, owned};

verus! {

/// A control file read from the framework directory.
#[derive(Debug, Clone)]
pub struct ControlFile {
    /// Path relative to the framework directory.
    pub relative_path: String,
    pub frontmatter: ControlFrontmatter,
}

/// Why an index cannot be built.
#[derive(Debug, Clone)]
pub enum BuildError {
    /// The frontmatter id is not `framework:control_id` of the same frontmatter.
    IdMismatch { file: String },
    /// The frontmatter names another framework.
    FrameworkMismatch { file: String },
    /// A control id that an earlier file already had.
    DuplicateId { file: String, id: ControlId },
    /// No control files at all.
    Empty,
}

/// The index entry of a control file.
pub open spec fn entry_of(f: ControlFile) -> ControlIndexEntry {
    ControlIndexEntry {
        id: f.frontmatter.id,
        title: f.frontmatter.title,
        domain: f.frontmatter.domain,
        category: f.frontmatter.category,
        levels: f.frontmatter.levels,
        tags: f.frontmatter.tags,
        mappings: f.frontmatter.mappings,
        excerpt_status: f.frontmatter.excerpt_status,
        file: f.relative_path,
    }
}

/// The check of one file against the framework and the files before it.
pub enum FileFault {
    IdMismatch,
    FrameworkMismatch,
    DuplicateId,
}

pub open spec fn file_fault(f: ControlFile, framework: Seq<char>, prev: Seq<ControlFile>) -> Option<FileFault> {
    let fm = f.frontmatter;
    if fm.id.framework.0@ != fm.framework.0@ || fm.id.control_id@ != fm.control_id@ {
        Some(FileFault::IdMismatch)
    } else if fm.framework.0@ != framework {
        Some(FileFault::FrameworkMismatch)
    } else if exists|j: int| 0 <= j < prev.len() && (#[trigger] prev[j]).frontmatter.id@ == fm.id@ {
        Some(FileFault::DuplicateId)
    } else {
        None
    }
}

/// The first faulty file, with its position.
pub open spec fn first_file_fault(fs: Seq<ControlFile>, framework: Seq<char>) -> Option<(int, FileFault)>
    decreases fs.len(),
{
    if fs.len() == 0 {
        None
    } else {
        match first_file_fault(fs.drop_last(), framework) {
            Some(x) => Some(x),
            None => match file_fault(fs.last(), framework, fs.drop_last()) {
                Some(e) => Some((fs.len() - 1, e)),
                None => None,
            },
        }
    }
}

/// The natural order of two entries' control numbers.
pub open spec fn entry_cmp(a: ControlIndexEntry, b: ControlIndexEntry) -> Ordering {
    natural_cmp(a.id.control_id@, b.id.control_id@)
}

/// `perm` lists `k` distinct positions below `k`.
pub open spec fn perm_ok(perm: Seq<int>, k: int) -> bool {
    &&& perm.len() == k
    &&& forall|i: int| 0 <= i < perm.len() ==> 0 <= #[trigger] perm[i] < k
    &&& forall|i: int, j: int| 0 <= i < j < perm.len() ==> #[trigger] perm[i] != #[trigger] perm[j]
}

/// `out[i]` is the input entry at `perm[i]`.
pub open spec fn maps(out: Seq<ControlIndexEntry>, perm: Seq<int>, inp: Seq<ControlIndexEntry>) -> bool {
    &&& out.len() == perm.len()
    &&& forall|i: int| 0 <= i < out.len() ==> #[trigger] out[i] == inp[perm[i]]
}

/// No entry directly follows one that sorts above it.
pub open spec fn adjacent_sorted(out: Seq<ControlIndexEntry>) -> bool {
    forall|i: int, j: int|
        0 <= i && j == i + 1 && j < out.len() ==> entry_cmp(#[trigger] out[i], #[trigger] out[j]) != Ordering::Greater
}

/// Two entries swapped relative to the input always sort strictly apart.
pub open spec fn stable(out: Seq<ControlIndexEntry>, perm: Seq<int>) -> bool {
    forall|i: int, j: int|
        0 <= i < j < out.len() && perm[i] > perm[j] ==> entry_cmp(#[trigger] out[j], #[trigger] out[i]) == Ordering::Greater
}

/// The invariant of the insertion sort, with `k` entries placed; with all
/// entries placed: `out` lists the entries of `inp` rearranged by `perm`, no
/// entry directly follows one that sorts above it, and entries that do not
/// sort strictly apart keep their input order.
pub open spec fn sort_inv(out: Seq<ControlIndexEntry>, perm: Seq<int>, inp: Seq<ControlIndexEntry>, k: int) -> bool {
    perm_ok(perm, k) && maps(out, perm, inp) && adjacent_sorted(out) && stable(out, perm)
}

/// `out` is all of `inp`, rearranged by `perm` into natural order, stably.
pub open spec fn sorted_arrangement(out: Seq<ControlIndexEntry>, perm: Seq<int>, inp: Seq<ControlIndexEntry>) -> bool {
    sort_inv(out, perm, inp, inp.len() as int)
}

/// `out` is all of `inp` in natural order: some rearrangement of the input
/// in which no entry directly follows one that sorts above it, and entries
/// that do not sort strictly apart keep their input order.
pub open spec fn naturally_sorted(out: Seq<ControlIndexEntry>, inp: Seq<ControlIndexEntry>) -> bool {
    exists|perm: Seq<int>| sorted_arrangement(out, perm, inp)
}

proof fn lemma_perm_step(old_perm: Seq<int>, k: int, pos: int)
    requires
        perm_ok(old_perm, k),
        0 <= pos <= old_perm.len(),
    ensures
        perm_ok(old_perm.insert(pos, k), k + 1),
{
    let perm = old_perm.insert(pos, k);
    assert forall|i: int| 0 <= i < perm.len() implies 0 <= #[trigger] perm[i] < k + 1 by {
        if i < pos {
            assert(perm[i] == old_perm[i]);
        } else if i > pos {
            assert(perm[i] == old_perm[i - 1]);
        }
    }
    assert forall|i: int, j: int| 0 <= i < j < perm.len() implies #[trigger] perm[i] != #[trigger] perm[j] by {
        if i < pos && j < pos {
            assert(perm[i] == old_perm[i] && perm[j] == old_perm[j]);
        } else if i < pos && j == pos {
            assert(perm[i] == old_perm[i]);
        } else if i < pos {
            assert(perm[i] == old_perm[i] && perm[j] == old_perm[j - 1]);
        } else if i == pos {
            assert(perm[j] == old_perm[j - 1]);
        } else {
            assert(perm[i] == old_perm[i - 1] && perm[j] == old_perm[j - 1]);
        }
    }
}

proof fn lemma_maps_step(old_out: Seq<ControlIndexEntry>, old_perm: Seq<int>, inp: Seq<ControlIndexEntry>, k: int, pos: int, x: ControlIndexEntry)
    requires
        maps(old_out, old_perm, inp),
        x == inp[k],
        0 <= pos <= old_out.len(),
    ensures
        maps(old_out.insert(pos, x), old_perm.insert(pos, k), inp),
{
    let out = old_out.insert(pos, x);
    let perm = old_perm.insert(pos, k);
    assert forall|i: int| 0 <= i < out.len() implies #[trigger] out[i] == inp[perm[i]] by {
        if i < pos {
            assert(out[i] == old_out[i] && perm[i] == old_perm[i]);
        } else if i > pos {
            assert(out[i] == old_out[i - 1] && perm[i] == old_perm[i - 1]);
        }
    }
}

proof fn lemma_adjacent_step(old_out: Seq<ControlIndexEntry>, pos: int, x: ControlIndexEntry)
    requires
        adjacent_sorted(old_out),
        0 <= pos <= old_out.len(),
        pos < old_out.len() ==> entry_cmp(old_out[pos], x) == Ordering::Greater,
        pos > 0 ==> entry_cmp(old_out[pos - 1], x) != Ordering::Greater,
    ensures
        adjacent_sorted(old_out.insert(pos, x)),
{
    let out = old_out.insert(pos, x);
    assert forall|i: int, j: int|
        0 <= i && j == i + 1 && j < out.len() implies entry_cmp(#[trigger] out[i], #[trigger] out[j]) != Ordering::Greater by {
        if j < pos {
            assert(out[i] == old_out[i] && out[j] == old_out[j]);
        } else if j == pos {
            assert(out[i] == old_out[i] && out[j] == x);
        } else if i == pos {
            assert(out[i] == x && out[j] == old_out[pos]);
            lemma_natural_cmp_antisymmetric(x.id.control_id@, old_out[pos].id.control_id@);
        } else {
            assert(out[i] == old_out[i - 1] && out[j] == old_out[j - 1]);
        }
    }
}

proof fn lemma_stable_step(old_out: Seq<ControlIndexEntry>, old_perm: Seq<int>, k: int, pos: int, x: ControlIndexEntry)
    requires
        stable(old_out, old_perm),
        perm_ok(old_perm, k),
        old_out.len() == k,
        0 <= pos <= old_out.len(),
        forall|q: int| pos <= q < old_out.len() ==> entry_cmp(#[trigger] old_out[q], x) == Ordering::Greater,
    ensures
        stable(old_out.insert(pos, x), old_perm.insert(pos, k)),
{
    let out = old_out.insert(pos, x);
    let perm = old_perm.insert(pos, k);
    assert forall|i: int, j: int|
        0 <= i < j < out.len() && perm[i] > perm[j] implies entry_cmp(#[trigger] out[j], #[trigger] out[i]) == Ordering::Greater by {
        if j < pos {
            assert(out[i] == old_out[i] && out[j] == old_out[j]);
            assert(perm[i] == old_perm[i] && perm[j] == old_perm[j]);
        } else if j == pos {
            assert(perm[j] == k);
            assert(perm[i] == old_perm[i]);
        } else if i == pos {
            assert(out[i] == x && out[j] == old_out[j - 1]);
        } else if i < pos {
            assert(out[i] == old_out[i] && out[j] == old_out[j - 1]);
            assert(perm[i] == old_perm[i] && perm[j] == old_perm[j - 1]);
        } else {
            assert(out[i] == old_out[i - 1] && out[j] == old_out[j - 1]);
            assert(perm[i] == old_perm[i - 1] && perm[j] == old_perm[j - 1]);
        }
    }
}

proof fn lemma_sort_step(old_out: Seq<ControlIndexEntry>, old_perm: Seq<int>, inp: Seq<ControlIndexEntry>, k: int, pos: int, x: ControlIndexEntry)
    requires
        0 <= k < inp.len(),
        x == inp[k],
        sort_inv(old_out, old_perm, inp, k),
        0 <= pos <= old_out.len(),
        forall|q: int| pos <= q < old_out.len() ==> entry_cmp(#[trigger] old_out[q], x) == Ordering::Greater,
        pos > 0 ==> entry_cmp(old_out[pos - 1], x) != Ordering::Greater,
    ensures
        sort_inv(old_out.insert(pos, x), old_perm.insert(pos, k), inp, k + 1),
{
    lemma_perm_step(old_perm, k, pos);
    lemma_maps_step(old_out, old_perm, inp, k, pos, x);
    lemma_adjacent_step(old_out, pos, x);
    lemma_stable_step(old_out, old_perm, k, pos, x);
}

fn insertion_sort(entries: Vec<ControlIndexEntry>) -> (out: Vec<ControlIndexEntry>)
    ensures
        naturally_sorted(out@, entries@),
{
    let ghost inp = entries@;
    let mut out: Vec<ControlIndexEntry> = Vec::new();
    let ghost mut perm: Seq<int> = Seq::empty();
    let mut rest = entries;
    let mut k: usize = 0;
    let n = rest.len();
    while rest.len() > 0
        invariant
            n == inp.len(),
            k <= n,
            rest@ == inp.skip(ix(k)),
            sort_inv(out@, perm, inp, ix(k)),
        decreases rest.len(),
    {
        assert(rest@.len() == n - k);
        let x = rest.remove(0);
        assert(x == inp[ix(k)]);
        let mut p: usize = out.len();
        while p > 0
            invariant
                p <= out@.len(),
                forall|q: int| p <= q < out@.len() ==> entry_cmp(#[trigger] out@[q], x) == Ordering::Greater,
            ensures
                p <= out@.len(),
                forall|q: int| p <= q < out@.len() ==> entry_cmp(#[trigger] out@[q], x) == Ordering::Greater,
                p > 0 ==> entry_cmp(out@[p - 1], x) != Ordering::Greater,
            decreases p,
        {
            let o = natural_control_cmp(out[p - 1].id.control_id.as_str(), x.id.control_id.as_str());
            let greater = match o {
                Ordering::Greater => true,
                _ => false,
            };
            if !greater {
                break;
            }
            p -= 1;
        }
        let ghost old_out = out@;
        let ghost old_perm = perm;
        let ghost pos = ix(p);
        out.insert(p, x);
        proof {
            perm = old_perm.insert(pos, ix(k));
            lemma_sort_step(old_out, old_perm, inp, ix(k), pos, x);
        }
        k += 1;
        assert(rest@ == inp.skip(ix(k)));
    }
    assert(ix(k) == inp.len());
    assert(sorted_arrangement(out@, perm, inp));
    out
}

/// The index entries of a list of files.
pub open spec fn entries_of(fs: Seq<ControlFile>) -> Seq<ControlIndexEntry> {
    Seq::new(fs.len(), |i: int| entry_of(fs[i]))
}

fn check_file(files: &Vec<ControlFile>, i: usize, framework: &str) -> (r: Option<FileFault>)
    requires
        i < files@.len(),
    ensures
        r == file_fault(files@[i as int], framework@, files@.take(i as int)),
{
    let fm = &files[i].frontmatter;
    if !(fm.id.framework.0 == fm.framework.0) || !(fm.id.control_id == fm.control_id) {
        return Some(FileFault::IdMismatch);
    }
    if !crate::text::str_eq(fm.framework.0.as_str(), framework) {
        return Some(FileFault::FrameworkMismatch);
    }
    let ghost prev = files@.take(i as int);
    let mut j: usize = 0;
    while j < i
        invariant
            j <= i,
            i < files@.len(),
            prev == files@.take(i as int),
            fm == files@[i as int].frontmatter,
            fm.id.framework.0@ == fm.framework.0@,
            fm.id.control_id@ == fm.control_id@,
            fm.framework.0@ == framework@,
            forall|q: int| 0 <= q < j ==> (#[trigger] prev[q]).frontmatter.id@ != fm.id@,
        decreases i - j,
    {
        assert(prev[j as int] == files@[j as int]);
        if files[j].frontmatter.id.same(&fm.id) {
            assert((prev[j as int]).frontmatter.id@ == fm.id@);
            return Some(FileFault::DuplicateId);
        }
        j += 1;
    }
    None
}

proof fn lemma_first_file_fault_prefix(fs: Seq<ControlFile>, framework: Seq<char>, n: int)
    requires
        0 <= n <= fs.len(),
        first_file_fault(fs.take(n), framework) is Some,
    ensures
        first_file_fault(fs, framework) == first_file_fault(fs.take(n), framework),
    decreases fs.len() - n,
{
    if n < fs.len() {
        assert(fs.drop_last().take(n) == fs.take(n));
        lemma_first_file_fault_prefix(fs.drop_last(), framework, n);
    } else {
        assert(fs.take(n) == fs);
    }
}

/// Builds the index of a framework from its control files: each file's id
/// must be its own `framework:control_id`, its framework the one being
/// built, and its id new; the controls are listed in natural order.
pub fn build_index(framework: &str, files: Vec<ControlFile>) -> (r: Result<ControlIndex, BuildError>)
    ensures
        match first_file_fault(files@, framework@) {
            Some((i, FileFault::IdMismatch)) => (r matches Err(BuildError::IdMismatch { file }) && file == files@[i].relative_path),
            Some((i, FileFault::FrameworkMismatch)) => (r matches Err(BuildError::FrameworkMismatch { file })
                && file == files@[i].relative_path),
            Some((i, FileFault::DuplicateId)) => (r matches Err(BuildError::DuplicateId { file, id }) && file
                == files@[i].relative_path && id == files@[i].frontmatter.id),
            None => if files@.len() == 0 {
                r matches Err(BuildError::Empty)
            } else {
                r matches Ok(idx) && idx.framework.0@ == framework@
            },
        },
        r matches Ok(idx) ==> naturally_sorted(idx.controls@, entries_of(files@)),
{
    let ghost fs = files@;
    let mut i: usize = 0;
    while i < files.len()
        invariant
            i <= fs.len(),
            fs == files@,
            first_file_fault(fs.take(i as int), framework@) is None,
        decreases files.len() - i,
    {
        assert(fs.take(i + 1).drop_last() == fs.take(i as int));
        assert(fs.take(i + 1).last() == fs[i as int]);
        match check_file(&files, i, framework) {
            None => {},
            Some(f) => {
                proof {
                    assert(first_file_fault(fs.take(i + 1), framework@) == Some((i as int, f)));
                    lemma_first_file_fault_prefix(fs, framework@, i + 1);
                }
                let file = files[i].relative_path.clone();
                return match f {
                    FileFault::IdMismatch => Err(BuildError::IdMismatch { file }),
                    FileFault::FrameworkMismatch => Err(BuildError::FrameworkMismatch { file }),
                    FileFault::DuplicateId => Err(BuildError::DuplicateId { file, id: files[i].frontmatter.id.duplicate() }),
                };
            },
        }
        i += 1;
    }
    assert(fs.take(fs.len() as int) == fs);
    if files.len() == 0 {
        return Err(BuildError::Empty);
    }
    let mut rest = files;
    let mut entries: Vec<ControlIndexEntry> = Vec::new();
    let mut k: usize = 0;
    let n = rest.len();
    while rest.len() > 0
        invariant
            n == fs.len(),
            k <= n,
            rest@ == fs.skip(ix(k)),
            entries@ == entries_of(fs).take(ix(k)),
        decreases rest.len(),
    {
        assert(rest@.len() == n - k);
        let f = rest.remove(0);
        assert(f == fs[ix(k)]);
        let ControlFile { relative_path, frontmatter } = f;
        entries.push(ControlIndexEntry {
            id: frontmatter.id,
            title: frontmatter.title,
            domain: frontmatter.domain,
            category: frontmatter.category,
            levels: frontmatter.levels,
            tags: frontmatter.tags,
            mappings: frontmatter.mappings,
            excerpt_status: frontmatter.excerpt_status,
            file: relative_path,
        });
        k += 1;
        assert(entries@ =~= entries_of(fs).take(ix(k)));
        assert(rest@ == fs.skip(ix(k)));
    }
    assert(ix(k) == fs.len());
    assert(entries_of(fs).take(ix(k)) =~= entries_of(fs));
    let ghost es = entries@;
    assert(es == entries_of(fs));
    let sorted = insertion_sort(entries);
    let idx = ControlIndex { framework: Framework(owned(framework)), controls: sorted };
    Ok(idx)
}

} // verus!
