//! Content revisions of the knowledge base.
//!
//! A revision describes what an index publishes, independent of version
//! control, timestamps or absolute paths: the index file, and every indexed
//! body's relative path and bytes, go into one SHA-256. The same snapshot
//! gives the same revision on every machine; a changed body or path gives a
//! new one.

use vstd::prelude::*;
use vstd::string::StringSliceAdditionalSpecFns;

use crate::digest::{sha256_digest, sha256_hex};
use crate::paths::{is_safe_relative, join_stored_path, path_join, PathError};
use crate::sorted::{insert_sorted, lemma_is_sorted_set, lemma_push_to_set, sorted_set, strictly_sorted};
use crate::text::{chars_of, hex_of, string_of, texts};

verus! {

/// The domain tag that starts every revision input.
pub open spec fn revision_domain() -> Seq<u8> {
    "complai-kb-revision-v1"@.map_values(|c: char| c as u8)
}

/// `n` as `k` big-endian bytes (the low `k` bytes of `n`).
pub open spec fn be_bytes(n: nat, k: nat) -> Seq<u8>
    decreases k,
{
    if k == 0 {
        Seq::empty()
    } else {
        be_bytes(n / 256, (k - 1) as nat).push((n % 256) as u8)
    }
}

/// A length-prefixed field: the length as 8 big-endian bytes, then the bytes,
/// so that path and body cannot run into each other.
pub open spec fn field(b: Seq<u8>) -> Seq<u8> {
    be_bytes(b.len(), 8) + b
}

/// One entry: a relative path (as UTF-8) and the bytes stored under it.
pub open spec fn entry(path: Seq<char>, bytes: Seq<u8>) -> Seq<u8> {
    field(vstd::utf8::encode_utf8(path)) + field(bytes)
}

/// The entries of the indexed files, in the given order.
pub open spec fn entries(files: Seq<(Seq<char>, Seq<u8>)>) -> Seq<u8>
    decreases files.len(),
{
    if files.len() == 0 {
        Seq::empty()
    } else {
        entries(files.drop_last()) + entry(files.last().0, files.last().1)
    }
}

/// Everything a revision digests: the domain tag, the index file as entry
/// `index.yaml`, then each indexed file.
pub open spec fn revision_bytes(index_bytes: Seq<u8>, files: Seq<(Seq<char>, Seq<u8>)>) -> Seq<u8> {
    revision_domain() + entry("index.yaml"@, index_bytes) + entries(files)
}

/// `sha256:<hex>` of the revision input.
pub open spec fn revision_text(index_bytes: Seq<u8>, files: Seq<(Seq<char>, Seq<u8>)>) -> Seq<char> {
    "sha256:"@ + hex_of(sha256_digest(revision_bytes(index_bytes, files)))
}

fn push_be_bytes(v: &mut Vec<u8>, n: u64, k: usize)
    requires
        k <= 8,
    ensures
        final(v)@ == old(v)@ + be_bytes(n as nat, k as nat),
    decreases k,
{
    if k > 0 {
        push_be_bytes(v, n / 256, k - 1);
        v.push((n % 256) as u8);
        assert(be_bytes(n as nat, k as nat) == be_bytes((n / 256) as nat, (k - 1) as nat).push((n % 256) as u8));
    }
}

fn push_bytes(v: &mut Vec<u8>, b: &[u8])
    ensures
        final(v)@ == old(v)@ + b@,
{
    let mut i: usize = 0;
    while i < b.len()
        invariant
            i <= b@.len(),
            v@ == old(v)@ + b@.take(i as int),
        decreases b.len() - i,
    {
        v.push(b[i]);
        assert(b@.take(i + 1) == b@.take(i as int).push(b@[i as int]));
        i += 1;
    }
    assert(b@.take(b@.len() as int) == b@);
}

fn push_field(v: &mut Vec<u8>, b: &[u8])
    ensures
        final(v)@ == old(v)@ + field(b@),
{
    let ghost start = v@;
    push_be_bytes(v, b.len() as u64, 8);
    push_bytes(v, b);
    assert(v@ =~= start + field(b@));
}

fn push_entry(v: &mut Vec<u8>, path: &str, bytes: &[u8])
    ensures
        final(v)@ == old(v)@ + entry(path@, bytes@),
{
    let ghost start = v@;
    push_field(v, path.as_bytes());
    push_field(v, bytes);
    assert(v@ =~= start + entry(path@, bytes@));
}

/// The views of a list of indexed files.
pub open spec fn file_views(files: Seq<(String, Vec<u8>)>) -> Seq<(Seq<char>, Seq<u8>)> {
    Seq::new(files.len(), |i: int| (files[i].0@, files[i].1@))
}

/// The revision of an index and its files, in the order given.
pub fn revision_of(index_bytes: &[u8], files: &Vec<(String, Vec<u8>)>) -> (r: String)
    ensures
        r@ == revision_text(index_bytes@, file_views(files@)),
{
    let ghost fv = file_views(files@);
    let mut v: Vec<u8> = Vec::new();
    let tag = "complai-kb-revision-v1".as_bytes();
    proof {
        reveal_strlit("complai-kb-revision-v1");
        vstd::string::is_ascii_spec_bytes("complai-kb-revision-v1");
    }
    assert(tag@ =~= revision_domain());
    push_bytes(&mut v, tag);
    push_entry(&mut v, "index.yaml", index_bytes);
    let ghost head = v@;
    let mut i: usize = 0;
    while i < files.len()
        invariant
            i <= files@.len(),
            fv == file_views(files@),
            v@ == head + entries(fv.take(i as int)),
        decreases files.len() - i,
    {
        assert(fv.take(i + 1).drop_last() == fv.take(i as int));
        assert(fv.take(i + 1).last() == fv[i as int]);
        let ghost before = v@;
        push_entry(&mut v, files[i].0.as_str(), files[i].1.as_slice());
        assert(v@ =~= head + entries(fv.take(i + 1)));
        i += 1;
    }
    assert(fv.take(files@.len() as int) == fv);
    assert(v@ =~= revision_bytes(index_bytes@, fv));
    let hex = sha256_hex(v.as_slice());
    let mut out = chars_of("sha256:");
    crate::text::append_str(&mut out, hex.as_str());
    string_of(&out)
}

/// The files a revision covers: the indexed paths in string order, each once,
/// with the full path below `root` to read them from.
pub fn revision_paths(root: &str, paths: &Vec<String>) -> (r: Result<Vec<(String, String)>, PathError>)
    ensures
        r matches Ok(fs) ==> fs@.len() == sorted_set(texts(paths@)).len() && forall|i: int|
            0 <= i < fs@.len() ==> (#[trigger] fs@[i]).0@ == sorted_set(texts(paths@))[i] && fs@[i].1@ == path_join(
                root@,
                sorted_set(texts(paths@))[i],
            ),
        r is Ok <==> forall|i: int| 0 <= i < paths@.len() ==> is_safe_relative((#[trigger] paths@[i])@),
        r matches Err(PathError::UnsafeStoredPath(p)) ==> !is_safe_relative(p@) && texts(paths@).contains(p@),
{
    let mut set: Vec<String> = Vec::new();
    let mut i: usize = 0;
    while i < paths.len()
        invariant
            i <= paths@.len(),
            strictly_sorted(texts(set@)),
            texts(set@).to_set() == texts(paths@).take(i as int).to_set(),
        decreases paths.len() - i,
    {
        insert_sorted(&mut set, paths[i].as_str());
        assert(texts(paths@).take(i + 1) == texts(paths@).take(i as int).push(paths@[i as int]@));
        proof {
            lemma_push_to_set(texts(paths@).take(i as int), paths@[i as int]@);
        }
        i += 1;
    }
    assert(texts(paths@).take(paths@.len() as int) == texts(paths@));
    proof {
        lemma_is_sorted_set(texts(set@), texts(paths@));
    }
    let ghost ss = texts(set@);
    let mut out: Vec<(String, String)> = Vec::new();
    let mut k: usize = 0;
    while k < set.len()
        invariant
            k <= set@.len(),
            ss == texts(set@),
            ss.to_set() == texts(paths@).to_set(),
            ss == sorted_set(texts(paths@)),
            out@.len() == k,
            forall|j: int| 0 <= j < k ==> is_safe_relative(#[trigger] ss[j]),
            forall|j: int| 0 <= j < k ==> (#[trigger] out@[j]).0@ == ss[j] && out@[j].1@ == path_join(root@, ss[j]),
        decreases set.len() - k,
    {
        match join_stored_path(root, set[k].as_str()) {
            Ok(full) => {
                out.push((set[k].clone(), full));
            },
            Err(e) => {
                proof {
                    assert(ss.to_set().contains(ss[k as int]));
                    let j = choose|j: int| 0 <= j < texts(paths@).len() && texts(paths@)[j] == ss[k as int];
                    assert(paths@[j]@ == ss[k as int]);
                    assert(!is_safe_relative((paths@[j])@));
                }
                return Err(e);
            },
        }
        k += 1;
    }
    proof {
        assert forall|i: int| 0 <= i < paths@.len() implies is_safe_relative((#[trigger] paths@[i])@) by {
            assert(texts(paths@)[i] == paths@[i]@);
            assert(texts(paths@).to_set().contains(paths@[i]@));
            assert(ss.to_set().contains(paths@[i]@));
            let j = choose|j: int| 0 <= j < ss.len() && ss[j] == paths@[i]@;
            assert(is_safe_relative(ss[j]));
        }
    }
    Ok(out)
}

/// The revision does not depend on the order in which an index lists its
/// files, nor on repetitions: lists with the same paths cover the same files
/// in the same order.
pub proof fn lemma_revision_order_independent(a: Seq<Seq<char>>, b: Seq<Seq<char>>)
    requires
        a.to_set() == b.to_set(),
    ensures
        sorted_set(a) == sorted_set(b),
{
}

/// A framework index that names another framework than its directory.
#[derive(Debug, Clone)]
pub struct ForeignIndex {
    pub declared: String,
}

/// A framework's revision covers its index only when the index declares that
/// framework; otherwise the index is refused with the name it declares.
pub fn check_index_framework(declared: &str, framework: &str) -> (r: Result<(), ForeignIndex>)
    ensures
        r is Ok <==> declared@ == framework@,
        r matches Err(e) ==> e.declared@ == declared@,
{
    if crate::text::str_eq(declared, framework) {
        Ok(())
    } else {
        Err(ForeignIndex { declared: crate::text::owned(declared) })
    }
}

} // verus!
